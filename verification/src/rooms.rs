//! Rooms: a table, the people and bots at it, and how its boards are run.
//!
//! State is deliberately in-memory only: table sessions are ephemeral.
//! Moments are milliseconds on the caller's monotonic clock.

use vstd::prelude::*;
use vstd::string::*;

use crate::cards::{
    hand, holding, lemma_suited_len, Call, Deal, DealView, Direction, SeatSet, Suit, Vulnerability,
};
use crate::seating::{Side, SideSet};
use crate::table::{BoardResult, BoardSetup, BoardView, TableState, TableView};
use crate::text::same;

verus! {

/// Zombie-seat policy: how long a disconnected occupant keeps their seat
/// human-driven before the bot driver takes over, in milliseconds. The seat
/// binding itself is never released — the human reclaims control simply by
/// reconnecting (takeover is a mode check, not a re-seat).
pub const TAKEOVER_AFTER: u64 = 60_000;

/// Shorter grace when the table is blocked waiting on the disconnected
/// seat's turn.
pub const TAKEOVER_AFTER_ON_TURN: u64 = 20_000;

/// The grace at friends' tables, which hand off to bots fast.
pub const FAST_TAKEOVER_AFTER: u64 = 10_000;

pub const FAST_TAKEOVER_AFTER_ON_TURN: u64 = 3_000;

/// How long a disconnected occupant keeps control, in milliseconds.
#[derive(Clone, Copy, Debug, PartialEq, Eq, Structural)]
pub struct TakeoverGrace {
    /// While the table waits for this seat.
    pub on_turn: u64,
    /// While it does not.
    pub off_turn: u64,
}

impl TakeoverGrace {
    pub open spec fn spec_standard() -> TakeoverGrace {
        TakeoverGrace { on_turn: TAKEOVER_AFTER_ON_TURN, off_turn: TAKEOVER_AFTER }
    }

    pub open spec fn spec_fast() -> TakeoverGrace {
        TakeoverGrace {
            on_turn: FAST_TAKEOVER_AFTER_ON_TURN,
            off_turn: FAST_TAKEOVER_AFTER,
        }
    }

    /// The generous reconnect grace of classroom sets and the demo table.
    #[verifier::when_used_as_spec(spec_standard)]
    pub fn standard() -> (r: TakeoverGrace)
        ensures
            r == TakeoverGrace::spec_standard(),
    {
        TakeoverGrace { on_turn: TAKEOVER_AFTER_ON_TURN, off_turn: TAKEOVER_AFTER }
    }

    /// The short grace of friends' tables.
    #[verifier::when_used_as_spec(spec_fast)]
    pub fn fast() -> (r: TakeoverGrace)
        ensures
            r == TakeoverGrace::spec_fast(),
    {
        TakeoverGrace {
            on_turn: FAST_TAKEOVER_AFTER_ON_TURN,
            off_turn: FAST_TAKEOVER_AFTER,
        }
    }
}

/// A table that waits for a seat waits less long than one that does not, and
/// friends' tables wait less long than others.
pub proof fn law_grace()
    ensures
        TakeoverGrace::standard().on_turn == 20_000 && TakeoverGrace::standard().off_turn
            == 60_000,
        TakeoverGrace::fast().on_turn == 3_000 && TakeoverGrace::fast().off_turn == 10_000,
{
}

/// Which backend drives the room's bot seats. Real is the default; the
/// others are set by a hello frame or from the teacher's console, and are
/// sticky for the room's lifetime.
#[derive(Clone, Copy, Debug, PartialEq, Eq, Structural)]
pub enum BotMode {
    /// BBA bidding + BEN cardplay, with rule-based cardplay as the fallback
    /// (Pass for bidding).
    Real,
    /// Instant deterministic legal cardplay, Pass bidding. Testing.
    Random,
    /// BBA bidding + instant rule-based cardplay, no BEN.
    Rules,
    /// As `Rules`, with a human-like think at the North and South seats.
    Slow,
}

impl BotMode {
    /// The backend that a hello frame asks for.
    pub open spec fn asked(s: Seq<char>) -> Option<BotMode> {
        if s == "random"@ {
            Some(BotMode::Random)
        } else if s == "rules"@ {
            Some(BotMode::Rules)
        } else {
            None
        }
    }

    /// The backend that the teacher's console names.
    pub open spec fn named(s: Seq<char>) -> Option<BotMode> {
        if s == BotMode::Real.name() {
            Some(BotMode::Real)
        } else if s == BotMode::Random.name() {
            Some(BotMode::Random)
        } else if s == BotMode::Rules.name() {
            Some(BotMode::Rules)
        } else if s == BotMode::Slow.name() {
            Some(BotMode::Slow)
        } else {
            None
        }
    }

    /// The backend that a hello frame asks for.
    pub fn parse(s: &str) -> (r: Option<BotMode>)
        ensures
            r == BotMode::asked(s@),
    {
        if same(s, "random") {
            Some(BotMode::Random)
        } else if same(s, "rules") {
            Some(BotMode::Rules)
        } else {
            None
        }
    }

    /// The backend that the teacher's console names: any of them.
    pub fn from_name(s: &str) -> (r: Option<BotMode>)
        ensures
            r == BotMode::named(s@),
            match r {
                Some(mode) => s@ == mode.name(),
                None => forall|mode: BotMode| s@ != #[trigger] mode.name(),
            },
    {
        if same(s, "real") {
            Some(BotMode::Real)
        } else if same(s, "random") {
            Some(BotMode::Random)
        } else if same(s, "rules") {
            Some(BotMode::Rules)
        } else if same(s, "slow") {
            Some(BotMode::Slow)
        } else {
            None
        }
    }

    /// The backend that a stored number stands for.
    pub open spec fn numbered(v: u8) -> BotMode {
        if v == 1 {
            BotMode::Random
        } else if v == 2 {
            BotMode::Rules
        } else if v == 3 {
            BotMode::Slow
        } else {
            BotMode::Real
        }
    }

    /// The backend that a stored number stands for: the four in their order,
    /// from zero; any other number stands for the default.
    pub fn from_u8(v: u8) -> (r: BotMode)
        ensures
            r == BotMode::numbered(v),
            r == (if v == 1 {
                BotMode::Random
            } else if v == 2 {
                BotMode::Rules
            } else if v == 3 {
                BotMode::Slow
            } else {
                BotMode::Real
            }),
    {
        match v {
            1 => BotMode::Random,
            2 => BotMode::Rules,
            3 => BotMode::Slow,
            _ => BotMode::Real,
        }
    }

    pub open spec fn name(self) -> Seq<char> {
        match self {
            BotMode::Real => "real"@,
            BotMode::Random => "random"@,
            BotMode::Rules => "rules"@,
            BotMode::Slow => "slow"@,
        }
    }

    /// Wire name, echoed in the welcome frame's `bot_mode`.
    pub fn as_str(&self) -> (r: &'static str)
        ensures
            r@ == self.name(),
    {
        match self {
            BotMode::Real => "real",
            BotMode::Random => "random",
            BotMode::Rules => "rules",
            BotMode::Slow => "slow",
        }
    }
}

/// The four backends have four different names, and go by them; a hello frame
/// asks for two of them by the same names, and for no other.
pub proof fn law_bot_mode_names(a: BotMode, b: BotMode)
    ensures
        a.name() == b.name() <==> a == b,
        BotMode::named(a.name()) == Some(a),
        BotMode::Real.name() == "real"@ && BotMode::Random.name() == "random"@,
        BotMode::Rules.name() == "rules"@ && BotMode::Slow.name() == "slow"@,
        BotMode::asked(a.name()) == (if a is Random || a is Rules {
            Some(a)
        } else {
            None
        }),
{
    reveal_strlit("real");
    reveal_strlit("random");
    reveal_strlit("rules");
    reveal_strlit("slow");
    assert("real"@.len() == 4 && "random"@.len() == 6 && "rules"@.len() == 5 && "slow"@.len() == 4);
    assert("real"@[0] == 'r' && "slow"@[0] == 's');
}

/// The numbers from zero stand for the backends in the order real, random, rules
/// and slow; any other number stands for the first.
pub proof fn law_bot_mode_numbers(v: u8)
    ensures
        v < 4 ==> BotMode::numbered(v).name() == seq!["real"@, "random"@, "rules"@, "slow"@][v as int],
        v >= 4 ==> BotMode::numbered(v) == BotMode::numbered(0),
{
}

/// How a board is run.
#[derive(Clone, Copy, Debug, PartialEq, Eq, Structural)]
pub enum BoardMode {
    /// Auction, then cardplay. The default.
    BidAndPlay,
    /// The board ends at the contract.
    BidOnly,
    /// Bots bid for every seat; humans play the hand.
    PlayOnly,
}

impl BoardMode {
    pub open spec fn name(self) -> Seq<char> {
        match self {
            BoardMode::BidAndPlay => "bid_and_play"@,
            BoardMode::BidOnly => "bid_only"@,
            BoardMode::PlayOnly => "play_only"@,
        }
    }

    /// Wire name.
    pub fn as_str(&self) -> (r: &'static str)
        ensures
            r@ == self.name(),
    {
        match self {
            BoardMode::BidAndPlay => "bid_and_play",
            BoardMode::BidOnly => "bid_only",
            BoardMode::PlayOnly => "play_only",
        }
    }

    /// The mode that a wire name names.
    pub open spec fn named(s: Seq<char>) -> Option<BoardMode> {
        if s == BoardMode::BidAndPlay.name() {
            Some(BoardMode::BidAndPlay)
        } else if s == BoardMode::BidOnly.name() {
            Some(BoardMode::BidOnly)
        } else if s == BoardMode::PlayOnly.name() {
            Some(BoardMode::PlayOnly)
        } else {
            None
        }
    }

    /// The mode that a wire name names.
    pub fn parse(s: &str) -> (r: Option<BoardMode>)
        ensures
            r == BoardMode::named(s@),
            match r {
                Some(mode) => s@ == mode.name(),
                None => forall|mode: BoardMode| s@ != #[trigger] mode.name(),
            },
    {
        if same(s, "bid_and_play") {
            Some(BoardMode::BidAndPlay)
        } else if same(s, "bid_only") {
            Some(BoardMode::BidOnly)
        } else if same(s, "play_only") {
            Some(BoardMode::PlayOnly)
        } else {
            None
        }
    }
}

/// The three modes have three different names, and go by them.
pub proof fn law_board_mode_names(a: BoardMode, b: BoardMode)
    ensures
        a.name() == b.name() <==> a == b,
        BoardMode::named(a.name()) == Some(a),
        BoardMode::BidAndPlay.name() == "bid_and_play"@,
        BoardMode::BidOnly.name() == "bid_only"@,
        BoardMode::PlayOnly.name() == "play_only"@,
{
    reveal_strlit("bid_and_play");
    reveal_strlit("bid_only");
    reveal_strlit("play_only");
    assert("bid_and_play"@.len() == 12 && "bid_only"@.len() == 8 && "play_only"@.len() == 9);
}

/// A seated (or recently seated) occupant.
#[derive(Debug)]
pub struct Occupant {
    /// Ticket subject (user or guest id).
    pub sub: String,
    pub name: String,
    pub connected: bool,
    /// When the occupant's socket dropped (None while connected). Drives
    /// the bot-takeover grace periods above.
    pub disconnected_at: Option<u64>,
}

/// What an occupant is.
#[verifier::ext_equal]
pub ghost struct OccupantView {
    pub sub: Seq<char>,
    pub name: Seq<char>,
    pub connected: bool,
    pub disconnected_at: Option<u64>,
}

impl View for Occupant {
    type V = OccupantView;

    open spec fn view(&self) -> OccupantView {
        OccupantView {
            sub: self.sub@,
            name: self.name@,
            connected: self.connected,
            disconnected_at: self.disconnected_at,
        }
    }
}

/// Somebody who has just sat down.
pub open spec fn fresh_occupant(sub: Seq<char>, name: Seq<char>) -> OccupantView {
    OccupantView { sub, name, connected: true, disconnected_at: None }
}

impl Occupant {
    /// Somebody who has just sat down.
    pub fn fresh(sub: &str, name: &str) -> (r: Occupant)
        ensures
            r@ == fresh_occupant(sub@, name@),
    {
        Occupant {
            sub: sub.to_owned(),
            name: name.to_owned(),
            connected: true,
            disconnected_at: None,
        }
    }

    pub fn copy(&self) -> (r: Occupant)
        ensures
            r@ == self@,
    {
        Occupant {
            sub: self.sub.clone(),
            name: self.name.clone(),
            connected: self.connected,
            disconnected_at: self.disconnected_at,
        }
    }
}

/// Who sits where. A person may hold several seats.
#[derive(Debug)]
pub struct Seats {
    pub north: Option<Occupant>,
    pub east: Option<Occupant>,
    pub south: Option<Occupant>,
    pub west: Option<Occupant>,
}

/// Who sits where.
#[verifier::ext_equal]
pub ghost struct SeatsView {
    pub north: Option<OccupantView>,
    pub east: Option<OccupantView>,
    pub south: Option<OccupantView>,
    pub west: Option<OccupantView>,
}

pub open spec fn occupant_view(o: Option<Occupant>) -> Option<OccupantView> {
    match o {
        Some(occ) => Some(occ@),
        None => None,
    }
}

/// The first seat, in the order N, E, S, W, of which something holds.
pub open spec fn first_seat(p: spec_fn(Direction) -> bool) -> Option<Direction> {
    if p(Direction::North) {
        Some(Direction::North)
    } else if p(Direction::East) {
        Some(Direction::East)
    } else if p(Direction::South) {
        Some(Direction::South)
    } else if p(Direction::West) {
        Some(Direction::West)
    } else {
        None
    }
}

impl SeatsView {
    pub open spec fn get(self, seat: Direction) -> Option<OccupantView> {
        match seat {
            Direction::North => self.north,
            Direction::East => self.east,
            Direction::South => self.south,
            Direction::West => self.west,
        }
    }

    pub open spec fn with(self, seat: Direction, o: Option<OccupantView>) -> SeatsView {
        match seat {
            Direction::North => SeatsView { north: o, ..self },
            Direction::East => SeatsView { east: o, ..self },
            Direction::South => SeatsView { south: o, ..self },
            Direction::West => SeatsView { west: o, ..self },
        }
    }

    pub open spec fn nobody() -> SeatsView {
        SeatsView { north: None, east: None, south: None, west: None }
    }

    /// Whether a seat is held under the given subject.
    pub open spec fn held_by(self, seat: Direction, sub: Seq<char>) -> bool {
        self.get(seat) matches Some(o) && o.sub == sub
    }

    /// A seat held under the given subject.
    pub open spec fn seat_of(self, sub: Seq<char>) -> Option<Direction> {
        first_seat(|d: Direction| self.held_by(d, sub))
    }

    /// Whether a seat's occupant is disconnected.
    pub open spec fn is_ghost(self, seat: Direction) -> bool {
        self.get(seat) matches Some(o) && !o.connected
    }

    /// A seat whose disconnected occupant goes by the given name.
    pub open spec fn ghost_named(self, name: Seq<char>) -> Option<Direction> {
        first_seat(|d: Direction| self.is_ghost(d) && self.get(d)->0.name == name)
    }

    /// How many seats are taken.
    pub open spec fn count(self) -> nat {
        let one = |o: Option<OccupantView>|
            if o is Some {
                1nat
            } else {
                0nat
            };
        one(self.north) + one(self.east) + one(self.south) + one(self.west)
    }
}

/// A seat holds what it was last given; the others keep what they held.
pub proof fn law_seats(s: SeatsView, d: Direction, e: Direction, o: Option<OccupantView>)
    ensures
        s.with(d, o).get(e) == (if d == e {
            o
        } else {
            s.get(e)
        }),
        s.with(d, s.get(d)) == s,
        SeatsView::nobody().get(d) is None,
{
}

/// The number of seats taken goes with who sits down and who gets up.
pub proof fn law_seats_taken(s: SeatsView, d: Direction, o: OccupantView)
    ensures
        SeatsView::nobody().count() == 0,
        s.get(d) is None ==> s.with(d, Some(o)).count() == s.count() + 1,
        s.get(d) is Some ==> s.with(d, Some(o)).count() == s.count(),
        s.get(d) is Some ==> s.with(d, None).count() == s.count() - 1,
        s.count() == 0 <==> s == SeatsView::nobody(),
        s.count() <= 4,
{
}

/// Of several seats of somebody, the first in the order N, E, S, W is found; and
/// of several disconnected namesakes, the first one's.
pub proof fn law_first_seat_found(s: SeatsView, sub: Seq<char>, name: Seq<char>, e: Direction)
    ensures
        s.held_by(e, sub) ==> (s.seat_of(sub) matches Some(d) && d.index() <= e.index()),
        s.ghost_named(name) matches Some(d) ==> (s.get(d) matches Some(o) && !o.connected && o.name
            == name),
        (s.get(e) matches Some(o) && !o.connected && o.name == name) ==> (s.ghost_named(
            name,
        ) matches Some(d) && d.index() <= e.index()),
{
}

/// A seat is found under a subject exactly if some seat is held under it.
pub proof fn law_seat_of(s: SeatsView, sub: Seq<char>)
    ensures
        s.seat_of(sub) matches Some(d) ==> s.held_by(d, sub),
        s.seat_of(sub) is None ==> forall|d: Direction| !#[trigger] s.held_by(d, sub),
{
    assert forall|d: Direction| s.seat_of(sub) is None implies !#[trigger] s.held_by(d, sub) by {
        match d {
            Direction::North => {},
            Direction::East => {},
            Direction::South => {},
            Direction::West => {},
        }
    }
}

impl View for Seats {
    type V = SeatsView;

    open spec fn view(&self) -> SeatsView {
        SeatsView {
            north: occupant_view(self.north),
            east: occupant_view(self.east),
            south: occupant_view(self.south),
            west: occupant_view(self.west),
        }
    }
}

impl Seats {
    /// Nobody is seated.
    pub fn new() -> (r: Seats)
        ensures
            r@ == SeatsView::nobody(),
    {
        Seats { north: None, east: None, south: None, west: None }
    }

    /// The occupant of a seat.
    pub fn get(&self, seat: Direction) -> (r: Option<&Occupant>)
        ensures
            match r {
                Some(o) => self@.get(seat) == Some(o@),
                None => self@.get(seat) is None,
            },
    {
        match seat {
            Direction::North => self.north.as_ref(),
            Direction::East => self.east.as_ref(),
            Direction::South => self.south.as_ref(),
            Direction::West => self.west.as_ref(),
        }
    }

    pub fn contains_key(&self, seat: Direction) -> (r: bool)
        ensures
            r == (self@.get(seat) is Some),
    {
        self.get(seat).is_some()
    }

    /// Whether the seat is held under the given subject.
    pub fn is_held_by(&self, seat: Direction, sub: &str) -> (r: bool)
        ensures
            r == self@.held_by(seat, sub@),
    {
        match self.get(seat) {
            Some(o) => same(o.sub.as_str(), sub),
            None => false,
        }
    }

    /// Whether the seat's occupant is disconnected.
    pub fn has_ghost(&self, seat: Direction) -> (r: bool)
        ensures
            r == self@.is_ghost(seat),
    {
        match self.get(seat) {
            Some(o) => !o.connected,
            None => false,
        }
    }

    /// A seat held under the given subject, if any.
    pub fn find_sub(&self, sub: &str) -> (r: Option<Direction>)
        ensures
            r == self@.seat_of(sub@),
    {
        if self.is_held_by(Direction::North, sub) {
            Some(Direction::North)
        } else if self.is_held_by(Direction::East, sub) {
            Some(Direction::East)
        } else if self.is_held_by(Direction::South, sub) {
            Some(Direction::South)
        } else if self.is_held_by(Direction::West, sub) {
            Some(Direction::West)
        } else {
            None
        }
    }

    fn has_ghost_named(&self, seat: Direction, name: &str) -> (r: bool)
        ensures
            r == (self@.is_ghost(seat) && self@.get(seat)->0.name == name@),
    {
        match self.get(seat) {
            Some(o) => !o.connected && same(o.name.as_str(), name),
            None => false,
        }
    }

    /// A seat whose disconnected occupant goes by the given name, if any.
    pub fn find_ghost_named(&self, name: &str) -> (r: Option<Direction>)
        ensures
            r == self@.ghost_named(name@),
    {
        if self.has_ghost_named(Direction::North, name) {
            Some(Direction::North)
        } else if self.has_ghost_named(Direction::East, name) {
            Some(Direction::East)
        } else if self.has_ghost_named(Direction::South, name) {
            Some(Direction::South)
        } else if self.has_ghost_named(Direction::West, name) {
            Some(Direction::West)
        } else {
            None
        }
    }

    /// Seats an occupant, or empties the seat; whoever held it leaves.
    pub fn put(&mut self, seat: Direction, o: Option<Occupant>)
        ensures
            final(self)@ == old(self)@.with(seat, occupant_view(o)),
    {
        match seat {
            Direction::North => { self.north = o; },
            Direction::East => { self.east = o; },
            Direction::South => { self.south = o; },
            Direction::West => { self.west = o; },
        }
    }

    /// Empties a seat, and gives back who held it.
    pub fn remove(&mut self, seat: Direction) -> (r: Option<Occupant>)
        ensures
            occupant_view(r) == old(self)@.get(seat),
            final(self)@ == old(self)@.with(seat, None),
    {
        match seat {
            Direction::North => self.north.take(),
            Direction::East => self.east.take(),
            Direction::South => self.south.take(),
            Direction::West => self.west.take(),
        }
    }

    /// How many seats are taken.
    pub fn len(&self) -> (r: usize)
        ensures
            r == self@.count(),
    {
        let mut n: usize = 0;
        if self.north.is_some() {
            n = n + 1;
        }
        if self.east.is_some() {
            n = n + 1;
        }
        if self.south.is_some() {
            n = n + 1;
        }
        if self.west.is_some() {
            n = n + 1;
        }
        n
    }
}

/// How a seat is shown.
#[derive(Debug)]
pub enum SeatLabel {
    Human { name: String, connected: bool },
    /// A bot was put here.
    Bot,
    Empty,
}

/// How a seat is shown.
pub ghost enum SeatLabelView {
    Human { name: Seq<char>, connected: bool },
    Bot,
    Empty,
}

impl View for SeatLabel {
    type V = SeatLabelView;

    open spec fn view(&self) -> SeatLabelView {
        match self {
            SeatLabel::Human { name, connected } => SeatLabelView::Human {
                name: name@,
                connected: *connected,
            },
            SeatLabel::Bot => SeatLabelView::Bot,
            SeatLabel::Empty => SeatLabelView::Empty,
        }
    }
}

/// How the four seats are shown.
#[derive(Debug)]
pub struct SeatLabels {
    pub north: SeatLabel,
    pub east: SeatLabel,
    pub south: SeatLabel,
    pub west: SeatLabel,
}

/// How the four seats are shown.
pub ghost struct SeatLabelsView {
    pub north: SeatLabelView,
    pub east: SeatLabelView,
    pub south: SeatLabelView,
    pub west: SeatLabelView,
}

impl View for SeatLabels {
    type V = SeatLabelsView;

    open spec fn view(&self) -> SeatLabelsView {
        SeatLabelsView {
            north: self.north@,
            east: self.east@,
            south: self.south@,
            west: self.west@,
        }
    }
}

impl SeatLabels {
    /// How one seat is shown.
    pub fn get(&self, seat: Direction) -> (r: &SeatLabel)
        ensures
            r@ == (match seat {
                Direction::North => self@.north,
                Direction::East => self@.east,
                Direction::South => self@.south,
                Direction::West => self@.west,
            }),
    {
        match seat {
            Direction::North => &self.north,
            Direction::East => &self.east,
            Direction::South => &self.south,
            Direction::West => &self.west,
        }
    }
}

/// The part of a room that actions and seatings change.
#[derive(Debug)]
pub struct RoomInner {
    pub table: TableState,
    pub seats: Seats,
    /// Index into the owning session's board list (always 0 for the demo
    /// room). The session's `try_advance` moves it forward.
    pub board_index: usize,
    /// Seats that sent `ready_next_board` for the current board. Cleared on
    /// advance and when a seat's occupant changes.
    pub ready: SeatSet,
    /// Seats that were emptied on purpose: no bot drives them, and the table
    /// pauses on their turn until someone sits.
    pub no_bot: SeatSet,
    /// Seats into which a bot was put on purpose.
    pub bots: SeatSet,
    /// Sides whose bot seats always pass in the auction.
    pub pass_sides: SideSet,
    pub board_mode: BoardMode,
    pub takeover: TakeoverGrace,
}

/// What a room's changing part is.
#[verifier::ext_equal]
pub ghost struct RoomInnerView {
    pub table: TableView,
    pub seats: SeatsView,
    pub board_index: usize,
    pub ready: SeatSet,
    pub no_bot: SeatSet,
    pub bots: SeatSet,
    pub pass_sides: SideSet,
    pub board_mode: BoardMode,
    pub takeover: TakeoverGrace,
}

impl View for RoomInner {
    type V = RoomInnerView;

    open spec fn view(&self) -> RoomInnerView {
        RoomInnerView {
            table: self.table@,
            seats: self.seats@,
            board_index: self.board_index,
            ready: self.ready,
            no_bot: self.no_bot,
            bots: self.bots,
            pass_sides: self.pass_sides,
            board_mode: self.board_mode,
            takeover: self.takeover,
        }
    }
}

impl RoomInnerView {
    /// The table's log is legal.
    pub open spec fn wf(self) -> bool {
        self.table.wf()
    }

    /// A room in which nobody sits and nothing has happened.
    pub open spec fn fresh(board: BoardView, takeover: TakeoverGrace) -> RoomInnerView {
        RoomInnerView {
            table: TableView::fresh(board),
            seats: SeatsView::nobody(),
            board_index: 0,
            ready: SeatSet::none(),
            no_bot: SeatSet::none(),
            bots: SeatSet::none(),
            pass_sides: SideSet::none(),
            board_mode: BoardMode::BidAndPlay,
            takeover,
        }
    }

    /// Somebody takes a vacant seat.
    pub open spec fn placed(self, seat: Direction, occ: OccupantView) -> RoomInnerView {
        RoomInnerView {
            seats: self.seats.with(seat, Some(occ)),
            ready: self.ready.with(seat, false),
            no_bot: self.no_bot.with(seat, false),
            bots: self.bots.with(seat, false),
            ..self
        }
    }

    /// A seat becomes vacant.
    pub open spec fn vacated(self, seat: Direction) -> RoomInnerView {
        RoomInnerView {
            seats: self.seats.with(seat, None),
            ready: self.ready.with(seat, false),
            ..self
        }
    }

    /// A seat's occupant is back, under the given name.
    pub open spec fn rebound(self, seat: Direction, name: Seq<char>) -> RoomInnerView {
        RoomInnerView {
            seats: self.seats.with(
                seat,
                Some(
                    OccupantView {
                        name,
                        connected: true,
                        disconnected_at: None,
                        ..self.seats.get(seat)->0
                    },
                ),
            ),
            ..self
        }
    }

    /// A disconnected occupant's seat is taken over under a new subject.
    pub open spec fn reclaimed(self, seat: Direction, sub: Seq<char>) -> RoomInnerView {
        RoomInnerView {
            seats: self.seats.with(
                seat,
                Some(
                    OccupantView {
                        sub,
                        connected: true,
                        disconnected_at: None,
                        ..self.seats.get(seat)->0
                    },
                ),
            ),
            ..self
        }
    }

    pub open spec fn with_bot(self, seat: Direction) -> RoomInnerView {
        RoomInnerView {
            no_bot: self.no_bot.with(seat, false),
            bots: self.bots.with(seat, true),
            ..self
        }
    }

    pub open spec fn without_bot(self, seat: Direction) -> RoomInnerView {
        RoomInnerView {
            no_bot: self.no_bot.with(seat, true),
            bots: self.bots.with(seat, false),
            ..self
        }
    }

    /// The first vacant seat, South first.
    pub open spec fn first_vacant(self) -> Option<Direction> {
        if self.seats.south is None {
            Some(Direction::South)
        } else if self.seats.west is None {
            Some(Direction::West)
        } else if self.seats.north is None {
            Some(Direction::North)
        } else if self.seats.east is None {
            Some(Direction::East)
        } else {
            None
        }
    }

    /// What a dropped socket does to a seat.
    pub open spec fn dropped(o: Option<OccupantView>, sub: Seq<char>, now: u64) -> Option<
        OccupantView,
    > {
        match o {
            Some(occ) => if occ.sub == sub {
                Some(OccupantView { connected: false, disconnected_at: Some(now), ..occ })
            } else {
                o
            },
            None => None,
        }
    }

    /// Every seat of somebody is disconnected.
    pub open spec fn disconnected(self, sub: Seq<char>, now: u64) -> RoomInnerView {
        RoomInnerView {
            seats: SeatsView {
                north: RoomInnerView::dropped(self.seats.north, sub, now),
                east: RoomInnerView::dropped(self.seats.east, sub, now),
                south: RoomInnerView::dropped(self.seats.south, sub, now),
                west: RoomInnerView::dropped(self.seats.west, sub, now),
            },
            ..self
        }
    }

    /// An occupant moves to another seat; whoever sits there takes theirs.
    pub open spec fn moved(self, from: Direction, to: Direction) -> RoomInnerView {
        let mover = self.seats.get(from)->0;
        match self.seats.get(to) {
            Some(other) => self.placed(to, mover).placed(from, other),
            None => self.vacated(from).placed(to, mover),
        }
    }

    /// A bot acts for the seat: it is vacant and was not emptied on purpose, or
    /// its occupant has been disconnected for the grace period.
    pub open spec fn bot_controlled(self, seat: Direction, on_turn: bool, now: u64) -> bool {
        let grace = if on_turn {
            self.takeover.on_turn
        } else {
            self.takeover.off_turn
        };
        match self.seats.get(seat) {
            None => !self.no_bot.has(seat),
            Some(occ) => !occ.connected && match occ.disconnected_at {
                Some(t) => (if now > t {
                    now - t
                } else {
                    0
                }) >= grace,
                None => false,
            },
        }
    }

    /// Who plays the declaring side's cards: declarer, unless a bot acts for
    /// that seat and a human for dummy's.
    pub open spec fn controller(self, declarer: Direction, on_turn: bool, now: u64) -> Direction {
        if self.bot_controlled(declarer, on_turn, now) && self.seats.get(declarer.partner()) is Some
            && !self.bot_controlled(declarer.partner(), on_turn, now) {
            declarer.partner()
        } else {
            declarer
        }
    }

    /// How a seat is shown.
    pub open spec fn label(self, seat: Direction) -> SeatLabelView {
        match self.seats.get(seat) {
            Some(o) => SeatLabelView::Human { name: o.name, connected: o.connected },
            None => if self.bots.has(seat) {
                SeatLabelView::Bot
            } else {
                SeatLabelView::Empty
            },
        }
    }

    /// How all seats are shown.
    pub open spec fn labels(self) -> SeatLabelsView {
        SeatLabelsView {
            north: self.label(Direction::North),
            east: self.label(Direction::East),
            south: self.label(Direction::South),
            west: self.label(Direction::West),
        }
    }

    /// A seat whose occupant is disconnected becomes vacant.
    pub open spec fn swept_at(self, seat: Direction) -> RoomInnerView {
        if self.seats.is_ghost(seat) {
            self.vacated(seat)
        } else {
            self
        }
    }

    /// Every seat whose occupant is disconnected becomes vacant.
    pub open spec fn swept(self) -> RoomInnerView {
        self.swept_at(Direction::North).swept_at(Direction::East).swept_at(
            Direction::South,
        ).swept_at(Direction::West)
    }

    /// Somebody's seat goes to a bot.
    pub open spec fn kicked_at(self, seat: Direction, sub: Seq<char>) -> RoomInnerView {
        if self.seats.held_by(seat, sub) {
            self.vacated(seat).with_bot(seat)
        } else {
            self
        }
    }

    /// All of somebody's seats go to bots.
    pub open spec fn kicked(self, sub: Seq<char>) -> RoomInnerView {
        self.kicked_at(Direction::North, sub).kicked_at(Direction::East, sub).kicked_at(
            Direction::South,
            sub,
        ).kicked_at(Direction::West, sub)
    }

    /// A fresh board is on the table.
    pub open spec fn on_board(self, board: BoardView, index: usize) -> RoomInnerView {
        RoomInnerView {
            table: TableView::fresh(board),
            board_index: index,
            ready: SeatSet::none(),
            ..self
        }
    }
}

impl RoomInner {
    /// A room in which nobody sits and nothing has happened.
    pub fn new(board: BoardSetup, takeover: TakeoverGrace) -> (r: RoomInner)
        ensures
            r@ == RoomInnerView::fresh(board@, takeover),
            r@.wf(),
    {
        RoomInner {
            table: TableState::new(board),
            seats: Seats::new(),
            board_index: 0,
            ready: SeatSet::new(),
            no_bot: SeatSet::new(),
            bots: SeatSet::new(),
            pass_sides: SideSet::new(),
            board_mode: BoardMode::BidAndPlay,
            takeover,
        }
    }

    /// Seat `sub` at the first free seat (S, W, N, E — South first so the
    /// solo learner lands in the traditional student seat). If the sub was
    /// already seated (reconnect), rebind that seat instead.
    pub fn seat_or_rebind(&mut self, sub: &str, name: &str) -> (r: Option<Direction>)
        ensures
            match old(self)@.seats.seat_of(sub@) {
                Some(seat) => r == Some(seat) && final(self)@ == old(self)@.rebound(seat, name@),
                None => r == old(self)@.first_vacant() && match r {
                    Some(seat) => final(self)@ == (RoomInnerView {
                        ready: old(self)@.ready,
                        ..old(self)@.placed(seat, fresh_occupant(sub@, name@))
                    }),
                    None => final(self)@ == old(self)@,
                },
            },
    {
        if let Some(seat) = self.seats.find_sub(sub) {
            self.rebind(seat, name);
            return Some(seat);
        }
        let seat = if !self.seats.contains_key(Direction::South) {
            Direction::South
        } else if !self.seats.contains_key(Direction::West) {
            Direction::West
        } else if !self.seats.contains_key(Direction::North) {
            Direction::North
        } else if !self.seats.contains_key(Direction::East) {
            Direction::East
        } else {
            return None;  // table full → kibitzer
        };
        self.seats.put(seat, Some(Occupant::fresh(sub, name)));
        self.no_bot.remove(seat);
        self.bots.remove(seat);
        Some(seat)
    }

    /// The occupant of a seat is back, under the given name.
    pub fn rebind(&mut self, seat: Direction, name: &str)
        requires
            old(self)@.seats.get(seat) is Some,
        ensures
            final(self)@ == old(self)@.rebound(seat, name@),
    {
        if let Some(mut occ) = self.seats.remove(seat) {
            occ.connected = true;
            occ.disconnected_at = None;
            occ.name = name.to_owned();
            self.seats.put(seat, Some(occ));
        }
    }

    /// A disconnected occupant's seat is taken over under a new subject.
    pub fn reclaim(&mut self, seat: Direction, sub: &str)
        requires
            old(self)@.seats.get(seat) is Some,
        ensures
            final(self)@ == old(self)@.reclaimed(seat, sub@),
    {
        if let Some(mut occ) = self.seats.remove(seat) {
            occ.sub = sub.to_owned();
            occ.connected = true;
            occ.disconnected_at = None;
            self.seats.put(seat, Some(occ));
        }
    }

    /// Seat `sub` at `seat` iff it's vacant. Used by the seat policies and
    /// the teacher's assign_seat (which vacates first).
    pub fn try_seat(&mut self, seat: Direction, sub: &str, name: &str) -> (r: bool)
        ensures
            r == (old(self)@.seats.get(seat) is None),
            final(self)@ == (if r {
                old(self)@.placed(seat, fresh_occupant(sub@, name@))
            } else {
                old(self)@
            }),
    {
        self.try_place(seat, Occupant::fresh(sub, name))
    }

    /// Place a pre-built occupant (preserves connected/disconnected state
    /// when the teacher moves someone between seats) iff the seat is
    /// vacant. A newly placed occupant is never "ready".
    pub fn try_place(&mut self, seat: Direction, occ: Occupant) -> (r: bool)
        ensures
            r == (old(self)@.seats.get(seat) is None),
            final(self)@ == (if r {
                old(self)@.placed(seat, occ@)
            } else {
                old(self)@
            }),
    {
        if self.seats.contains_key(seat) {
            false
        } else {
            self.seats.put(seat, Some(occ));
            self.ready.remove(seat);
            self.no_bot.remove(seat);
            self.bots.remove(seat);
            true
        }
    }

    /// Vacate a seat (teacher boot / assign away). Returns the removed
    /// occupant. Also clears the seat's ready flag.
    pub fn vacate(&mut self, seat: Direction) -> (r: Option<Occupant>)
        ensures
            occupant_view(r) == old(self)@.seats.get(seat),
            final(self)@ == old(self)@.vacated(seat),
    {
        self.ready.remove(seat);
        self.seats.remove(seat)
    }

    /// Moves an occupant to another seat; whoever sits there takes theirs.
    pub fn move_occupant(&mut self, from: Direction, to: Direction)
        requires
            from != to,
            old(self)@.seats.get(from) is Some,
        ensures
            final(self)@ == old(self)@.moved(from, to),
    {
        let mover = self.vacate(from);
        let other = self.vacate(to);
        if let Some(occ) = mover {
            self.try_place(to, occ);
        }
        if let Some(occ) = other {
            self.try_place(from, occ);
        }
    }

    /// A bot is put into a vacant seat.
    pub fn set_bot(&mut self, seat: Direction)
        ensures
            final(self)@ == old(self)@.with_bot(seat),
    {
        self.no_bot.remove(seat);
        self.bots.insert(seat);
    }

    /// A vacant seat is left open: no bot drives it.
    pub fn set_empty(&mut self, seat: Direction)
        ensures
            final(self)@ == old(self)@.without_bot(seat),
    {
        self.no_bot.insert(seat);
        self.bots.remove(seat);
    }

    fn sweep_seat(&mut self, seat: Direction)
        ensures
            final(self)@ == old(self)@.swept_at(seat),
    {
        if self.seats.has_ghost(seat) {
            self.vacate(seat);
        }
    }

    /// Frees every seat whose occupant is disconnected.
    pub fn sweep(&mut self)
        ensures
            final(self)@ == old(self)@.swept(),
    {
        self.sweep_seat(Direction::North);
        self.sweep_seat(Direction::East);
        self.sweep_seat(Direction::South);
        self.sweep_seat(Direction::West);
    }

    fn kick_seat(&mut self, seat: Direction, sub: &str)
        ensures
            final(self)@ == old(self)@.kicked_at(seat, sub@),
    {
        if self.seats.is_held_by(seat, sub) {
            self.vacate(seat);
            self.set_bot(seat);
        }
    }

    /// Hands all of somebody's seats to bots.
    pub fn kick_sub(&mut self, sub: &str)
        ensures
            final(self)@ == old(self)@.kicked(sub@),
    {
        self.kick_seat(Direction::North, sub);
        self.kick_seat(Direction::East, sub);
        self.kick_seat(Direction::South, sub);
        self.kick_seat(Direction::West, sub);
    }

    fn drop_seat(&mut self, seat: Direction, sub: &str, now: u64)
        ensures
            final(self)@ == (RoomInnerView {
                seats: old(self)@.seats.with(
                    seat,
                    RoomInnerView::dropped(old(self)@.seats.get(seat), sub@, now),
                ),
                ..old(self)@
            }),
    {
        if self.seats.is_held_by(seat, sub) {
            if let Some(mut occ) = self.seats.remove(seat) {
                occ.connected = false;
                occ.disconnected_at = Some(now);
                self.seats.put(seat, Some(occ));
            }
        }
    }

    /// Somebody's socket is gone: every seat they hold is disconnected.
    pub fn mark_disconnected(&mut self, sub: &str, now: u64)
        ensures
            final(self)@ == old(self)@.disconnected(sub@, now),
    {
        self.drop_seat(Direction::North, sub, now);
        self.drop_seat(Direction::East, sub, now);
        self.drop_seat(Direction::South, sub, now);
        self.drop_seat(Direction::West, sub, now);
    }

    /// Zombie-seat policy: should the bot driver act for `seat` right now?
    /// True for a vacant seat that was not emptied on purpose, and for a seat
    /// whose occupant has been disconnected past the grace period (the shorter
    /// one when the table is waiting on this seat). The seat binding is
    /// untouched — a reconnect (seat_or_rebind) instantly returns control to
    /// the human. `now` is injected for testability.
    pub fn seat_bot_controlled(&self, seat: Direction, on_turn: bool, now: u64) -> (r: bool)
        ensures
            r == self@.bot_controlled(seat, on_turn, now),
    {
        match self.seats.get(seat) {
            None => !self.no_bot.contains(seat),
            Some(occ) => {
                if occ.connected {
                    return false;
                }
                let grace: u64 = if on_turn {
                    self.takeover.on_turn
                } else {
                    self.takeover.off_turn
                };
                match occ.disconnected_at {
                    Some(t) => now.saturating_sub(t) >= grace,
                    None => false,
                }
            },
        }
    }

    /// Who plays the declaring side's cards: a human declarer plays both hands;
    /// else a human dummy plays them for a bot declarer; else the bot drives.
    pub fn declarer_side_controller(&self, declarer: Direction, on_turn: bool, now: u64) -> (r:
        Direction)
        ensures
            r == self@.controller(declarer, on_turn, now),
    {
        let dummy = declarer.partner();
        if self.seat_bot_controlled(declarer, on_turn, now) && self.seats.contains_key(dummy)
            && !self.seat_bot_controlled(dummy, on_turn, now) {
            dummy
        } else {
            declarer
        }
    }

    fn seat_label(&self, seat: Direction) -> (r: SeatLabel)
        ensures
            r@ == self@.label(seat),
    {
        match self.seats.get(seat) {
            Some(o) => SeatLabel::Human { name: o.name.clone(), connected: o.connected },
            None => if self.bots.contains(seat) {
                SeatLabel::Bot
            } else {
                SeatLabel::Empty
            },
        }
    }

    /// How the seats are shown: who is human and connected, where a bot was
    /// put, what is empty.
    pub fn seats_json(&self) -> (r: SeatLabels)
        ensures
            r@ == self@.labels(),
    {
        SeatLabels {
            north: self.seat_label(Direction::North),
            east: self.seat_label(Direction::East),
            south: self.seat_label(Direction::South),
            west: self.seat_label(Direction::West),
        }
    }

    /// The sides whose bots always pass.
    pub fn pass_sides_json(&self) -> (r: Vec<Side>)
        ensures
            r@ == (if self.pass_sides.ns {
                seq![Side::NS]
            } else {
                seq![]
            }) + (if self.pass_sides.ew {
                seq![Side::EW]
            } else {
                seq![]
            }),
            r@ == self@.pass_sides.listed(),
    {
        let mut r: Vec<Side> = Vec::new();
        if self.pass_sides.ns {
            r.push(Side::NS);
        }
        if self.pass_sides.ew {
            r.push(Side::EW);
        }
        assert(r@ =~= (if self.pass_sides.ns {
            seq![Side::NS]
        } else {
            seq![]
        }) + (if self.pass_sides.ew {
            seq![Side::EW]
        } else {
            seq![]
        }));
        r
    }

    /// The board's result, once it is complete.
    pub fn result_json(&self) -> (r: Option<BoardResult>)
        requires
            self@.wf(),
        ensures
            r == self@.table.result(),
    {
        proof {
            crate::table::lemma_wf_foldable(self.table);
        }
        self.table.board_result_json()
    }

    /// Puts a fresh board on the table.
    pub fn start_board(&mut self, board: BoardSetup, index: usize)
        ensures
            final(self)@ == old(self)@.on_board(board@, index),
            final(self)@.wf(),
    {
        self.board_index = index;
        self.table = TableState::new(board);
        self.ready = SeatSet::new();
    }
}

/// An occupant who is connected is never played by a bot, and a vacant seat is
/// unless it was emptied on purpose.
pub proof fn law_bot_control(room: RoomInnerView, seat: Direction, on_turn: bool, now: u64)
    ensures
        room.seats.get(seat) matches Some(o) && o.connected ==> !room.bot_controlled(
            seat,
            on_turn,
            now,
        ),
        room.seats.get(seat) is None ==> room.bot_controlled(seat, on_turn, now)
            == !room.no_bot.has(seat),
        !room.without_bot(seat).vacated(seat).bot_controlled(seat, on_turn, now),
        room.with_bot(seat).vacated(seat).bot_controlled(seat, on_turn, now),
{
}

/// A dropped socket leaves the seat with its human until the grace period is
/// over, and hands it to a bot from then on.
pub proof fn law_takeover_waits_out_grace(
    room: RoomInnerView,
    seat: Direction,
    sub: Seq<char>,
    dropped_at: u64,
    on_turn: bool,
    now: u64,
)
    requires
        room.seats.held_by(seat, sub),
        now >= dropped_at,
    ensures
        ({
            let grace = if on_turn {
                room.takeover.on_turn
            } else {
                room.takeover.off_turn
            };
            room.disconnected(sub, dropped_at).bot_controlled(seat, on_turn, now) <==> now
                - dropped_at >= grace
        }),
{
}

/// A dropped socket changes nothing but the connection of the seats of its
/// owner: nobody loses a seat.
pub proof fn law_disconnect_keeps_seats(
    room: RoomInnerView,
    sub: Seq<char>,
    now: u64,
    seat: Direction,
)
    ensures
        ({
            let after = room.disconnected(sub, now);
            &&& after.table == room.table && after.ready == room.ready
            &&& match room.seats.get(seat) {
                Some(o) => after.seats.get(seat) matches Some(p) && p.sub == o.sub && p.name
                    == o.name && (o.sub != sub ==> p == o),
                None => after.seats.get(seat) is None,
            }
        }),
{
}

/// Reconnecting ends the takeover at once, however long it lasted.
pub proof fn law_reconnect_reclaims(
    room: RoomInnerView,
    sub: Seq<char>,
    name: Seq<char>,
    dropped_at: u64,
    on_turn: bool,
    now: u64,
)
    requires
        room.seats.seat_of(sub) is Some,
    ensures
        ({
            let seat = room.seats.seat_of(sub)->0;
            let gone = room.disconnected(sub, dropped_at);
            &&& gone.seats.seat_of(sub) == Some(seat)
            &&& !gone.rebound(seat, name).bot_controlled(seat, on_turn, now)
        }),
{
    law_seat_of(room.seats, sub);
    let gone = room.disconnected(sub, dropped_at);
    assert forall|d: Direction| #[trigger] gone.seats.held_by(d, sub) == room.seats.held_by(
        d,
        sub,
    ) by {
        match d {
            Direction::North => {},
            Direction::East => {},
            Direction::South => {},
            Direction::West => {},
        }
    }
}

/// A human declarer plays both hands, a human dummy plays them for a bot
/// declarer, and only with neither does a bot play them.
pub proof fn law_declarer_side(
    room: RoomInnerView,
    declarer: Direction,
    on_turn: bool,
    now: u64,
)
    ensures
        ({
            let dummy = declarer.partner();
            let c = room.controller(declarer, on_turn, now);
            &&& c == declarer || c == dummy
            &&& !room.bot_controlled(declarer, on_turn, now) ==> c == declarer
            &&& room.bot_controlled(c, on_turn, now) ==> room.bot_controlled(
                declarer,
                on_turn,
                now,
            ) && (room.seats.get(dummy) is None || room.bot_controlled(dummy, on_turn, now))
        }),
{
}

/// Dummy plays for declarer only where somebody sits there who is not played by
/// a bot.
pub proof fn law_dummy_plays(room: RoomInnerView, declarer: Direction, on_turn: bool, now: u64)
    ensures
        ({
            let c = room.controller(declarer, on_turn, now);
            c != declarer ==> c == declarer.partner() && room.seats.get(c) is Some
                && !room.bot_controlled(c, on_turn, now)
        }),
{
}

/// An empty table is filled from South clockwise: a newcomer gets the first
/// vacant seat in that order, and none only if all are taken.
pub proof fn law_first_vacant(room: RoomInnerView, k: int)
    requires
        0 <= k < 4,
        forall|j: int|
            0 <= j < k ==> room.seats.get(#[trigger] Direction::South.plus(j)) is Some,
    ensures
        room.seats.get(Direction::South.plus(k)) is None ==> room.first_vacant() == Some(
            Direction::South.plus(k),
        ),
        k == 3 && room.seats.get(Direction::South.plus(k)) is Some ==> room.first_vacant() is None,
{
    assert(Direction::South.plus(0) == Direction::South);
    assert(Direction::South.plus(1) == Direction::West);
    assert(Direction::South.plus(2) == Direction::North);
    assert(Direction::South.plus(3) == Direction::East);
}

/// Nothing about a room but one seat is different.
pub open spec fn differ_at(a: RoomInnerView, b: RoomInnerView, seat: Direction) -> bool {
    &&& a.table == b.table && a.board_index == b.board_index && a.pass_sides == b.pass_sides
    &&& a.board_mode == b.board_mode && a.takeover == b.takeover
    &&& forall|e: Direction|
        e != seat ==> {
            &&& #[trigger] a.seats.get(e) == b.seats.get(e)
            &&& a.ready.has(e) == b.ready.has(e)
            &&& a.no_bot.has(e) == b.no_bot.has(e)
            &&& a.bots.has(e) == b.bots.has(e)
        }
}

/// Whoever sits down is shown at the seat, is not ready for the next board, and
/// leaves no trace of the bot or the gap that was there; whoever gets up leaves
/// the seat vacant and not ready. The other seats are untouched.
pub proof fn law_sit_and_get_up(room: RoomInnerView, seat: Direction, occ: OccupantView)
    ensures
        ({
            let sat = room.placed(seat, occ);
            &&& differ_at(room, sat, seat)
            &&& sat.seats.get(seat) == Some(occ)
            &&& !sat.ready.has(seat) && !sat.no_bot.has(seat) && !sat.bots.has(seat)
            &&& sat.label(seat) == (SeatLabelView::Human { name: occ.name, connected: occ.connected })
            &&& sat.vacated(seat).label(seat) == SeatLabelView::Empty
        }),
        ({
            let left = room.vacated(seat);
            &&& differ_at(room, left, seat)
            &&& left.seats.get(seat) is None
            &&& !left.ready.has(seat)
            &&& left.no_bot.has(seat) == room.no_bot.has(seat)
            &&& left.bots.has(seat) == room.bots.has(seat)
        }),
{
}

/// A bot that is put into a vacant seat is shown there and drives it; a seat
/// that is left open shows nobody and is driven by nobody.
pub proof fn law_bots_and_gaps(room: RoomInnerView, seat: Direction, on_turn: bool, now: u64)
    requires
        room.seats.get(seat) is None,
    ensures
        differ_at(room, room.with_bot(seat), seat),
        differ_at(room, room.without_bot(seat), seat),
        room.with_bot(seat).label(seat) == SeatLabelView::Bot,
        room.with_bot(seat).bot_controlled(seat, on_turn, now),
        room.without_bot(seat).label(seat) == SeatLabelView::Empty,
        !room.without_bot(seat).bot_controlled(seat, on_turn, now),
        room.with_bot(seat).seats == room.seats && room.with_bot(seat).ready == room.ready,
        room.without_bot(seat).seats == room.seats && room.without_bot(seat).ready == room.ready,
{
}

/// Who comes back keeps their subject under a new name; who takes over a
/// disconnected namesake's seat keeps the name under a new subject. Either is
/// connected, and nothing else about the room changes.
pub proof fn law_come_back(room: RoomInnerView, seat: Direction, name: Seq<char>, sub: Seq<char>)
    requires
        room.seats.get(seat) is Some,
    ensures
        ({
            let before = room.seats.get(seat)->0;
            let back = room.rebound(seat, name);
            let taken = room.reclaimed(seat, sub);
            &&& differ_at(room, back, seat) && differ_at(room, taken, seat)
            &&& back.ready == room.ready && taken.ready == room.ready
            &&& back.no_bot == room.no_bot && taken.no_bot == room.no_bot
            &&& back.bots == room.bots && taken.bots == room.bots
            &&& back.seats.get(seat) matches Some(o) && o.sub == before.sub && o.name == name
                && o.connected && o.disconnected_at is None
            &&& taken.seats.get(seat) matches Some(o) && o.sub == sub && o.name == before.name
                && o.connected && o.disconnected_at is None
        }),
{
}

/// Who moves sits at the new seat, and whoever sat there takes the old one;
/// neither is ready any more. The other seats are untouched.
pub proof fn law_exchange(room: RoomInnerView, from: Direction, to: Direction, e: Direction)
    requires
        from != to,
        room.seats.get(from) is Some,
    ensures
        ({
            let after = room.moved(from, to);
            &&& after.seats.get(to) == room.seats.get(from)
            &&& after.seats.get(from) == room.seats.get(to)
            &&& !after.ready.has(to) && !after.ready.has(from)
            &&& after.table == room.table && after.board_index == room.board_index
            &&& e != from && e != to ==> after.seats.get(e) == room.seats.get(e)
                && after.ready.has(e) == room.ready.has(e)
            &&& after.seats.count() == room.seats.count()
        }),
{
}

/// A sweep leaves vacant, and not ready, exactly the seats that were vacant and
/// those whose occupants are disconnected; everybody else stays.
pub proof fn law_sweep(room: RoomInnerView, e: Direction)
    ensures
        ({
            let after = room.swept();
            &&& after.seats.get(e) == (match room.seats.get(e) {
                Some(o) => if o.connected {
                    Some(o)
                } else {
                    None
                },
                None => None,
            })
            &&& after.ready.has(e) == (room.ready.has(e) && !(room.seats.get(e) matches Some(o)
                && !o.connected))
            &&& after.table == room.table && after.no_bot == room.no_bot && after.bots == room.bots
        }),
{
}

/// One seat goes to a bot if somebody holds it; the others stay as they are.
proof fn lemma_kicked_at(room: RoomInnerView, seat: Direction, sub: Seq<char>, e: Direction)
    ensures
        ({
            let after = room.kicked_at(seat, sub);
            &&& after.table == room.table
            &&& if e == seat && room.seats.held_by(e, sub) {
                &&& after.seats.get(e) is None
                &&& !after.ready.has(e)
                &&& !after.no_bot.has(e)
                &&& after.bots.has(e)
            } else {
                &&& after.seats.get(e) == room.seats.get(e)
                &&& after.ready.has(e) == room.ready.has(e)
                &&& after.no_bot.has(e) == room.no_bot.has(e)
                &&& after.bots.has(e) == room.bots.has(e)
            }
        }),
{
}

/// Whoever is kicked loses every seat to a bot; nobody else is touched.
pub proof fn law_kick(room: RoomInnerView, sub: Seq<char>, e: Direction, on_turn: bool, now: u64)
    ensures
        ({
            let after = room.kicked(sub);
            &&& after.table == room.table
            &&& if room.seats.get(e) matches Some(o) && o.sub == sub {
                &&& after.seats.get(e) is None
                &&& !after.ready.has(e)
                &&& after.label(e) == SeatLabelView::Bot
                &&& after.bot_controlled(e, on_turn, now)
            } else {
                &&& after.seats.get(e) == room.seats.get(e)
                &&& after.ready.has(e) == room.ready.has(e)
                &&& after.no_bot.has(e) == room.no_bot.has(e)
                &&& after.bots.has(e) == room.bots.has(e)
            }
        }),
{
    let a = room.kicked_at(Direction::North, sub);
    let b = a.kicked_at(Direction::East, sub);
    let c = b.kicked_at(Direction::South, sub);
    let after = room.kicked(sub);
    assert(after == c.kicked_at(Direction::West, sub));
    assert({
        &&& after.table == room.table
        &&& if room.seats.held_by(e, sub) {
            &&& after.seats.get(e) is None
            &&& !after.ready.has(e)
            &&& !after.no_bot.has(e)
            &&& after.bots.has(e)
        } else {
            &&& after.seats.get(e) == room.seats.get(e)
            &&& after.ready.has(e) == room.ready.has(e)
            &&& after.no_bot.has(e) == room.no_bot.has(e)
            &&& after.bots.has(e) == room.bots.has(e)
        }
    }) by {
        lemma_kick_chain(room, a, b, c, after, sub, e);
    }
}

/// The four steps of a kick, seen at one seat.
#[verifier::spinoff_prover]
proof fn lemma_kick_chain(
    room: RoomInnerView,
    a: RoomInnerView,
    b: RoomInnerView,
    c: RoomInnerView,
    after: RoomInnerView,
    sub: Seq<char>,
    e: Direction,
)
    requires
        a == room.kicked_at(Direction::North, sub),
        b == a.kicked_at(Direction::East, sub),
        c == b.kicked_at(Direction::South, sub),
        after == c.kicked_at(Direction::West, sub),
    ensures
        after.table == room.table,
        if room.seats.held_by(e, sub) {
            &&& after.seats.get(e) is None
            &&& !after.ready.has(e)
            &&& !after.no_bot.has(e)
            &&& after.bots.has(e)
        } else {
            &&& after.seats.get(e) == room.seats.get(e)
            &&& after.ready.has(e) == room.ready.has(e)
            &&& after.no_bot.has(e) == room.no_bot.has(e)
            &&& after.bots.has(e) == room.bots.has(e)
        },
{
    lemma_kicked_at(room, Direction::North, sub, e);
    lemma_kicked_at(a, Direction::East, sub, e);
    lemma_kicked_at(b, Direction::South, sub, e);
    lemma_kicked_at(c, Direction::West, sub, e);
}

/// A dropped socket shows at each seat of its owner, with the moment, and at
/// no other seat.
pub proof fn law_drop_shows(room: RoomInnerView, sub: Seq<char>, now: u64, e: Direction)
    ensures
        ({
            let after = room.disconnected(sub, now);
            if room.seats.get(e) matches Some(o) && o.sub == sub {
                &&& after.seats.get(e) matches Some(p) && !p.connected && p.disconnected_at == Some(
                    now,
                )
                &&& after.label(e) == (SeatLabelView::Human {
                    name: room.seats.get(e)->0.name,
                    connected: false,
                })
            } else {
                after.label(e) == room.label(e) && after.seats.get(e) == room.seats.get(e)
            }
        }),
{
}

/// The list of labels shows each seat's own.
pub proof fn law_labels(room: RoomInnerView)
    ensures
        room.labels().north == room.label(Direction::North),
        room.labels().east == room.label(Direction::East),
        room.labels().south == room.label(Direction::South),
        room.labels().west == room.label(Direction::West),
{
}

/// A fresh board starts with nothing done on it and nobody ready; the people
/// stay where they sit.
pub proof fn law_fresh_board(room: RoomInnerView, board: BoardView, index: usize, seat: Direction)
    ensures
        ({
            let after = room.on_board(board, index);
            &&& after.table.board == board && after.table.log.len() == 0
            &&& after.board_index == index
            &&& !after.ready.has(seat)
            &&& after.seats == room.seats && after.no_bot == room.no_bot && after.bots == room.bots
            &&& after.pass_sides == room.pass_sides && after.board_mode == room.board_mode
        }),
{
}

/// A room: a table with its people, its bots and their backend.
#[derive(Debug)]
pub struct Room {
    pub id: String,
    pub state: RoomInner,
    pub bot_mode: BotMode,
    /// BBA's predicted auction for the current board (complete, from call
    /// 1). Bot calls are served from it while the actual auction remains a
    /// prefix; divergence or undo re-requests.
    pub bba_cache: Option<Vec<Call>>,
}

/// What a room is.
#[verifier::ext_equal]
pub ghost struct RoomView {
    pub id: Seq<char>,
    pub state: RoomInnerView,
    pub bot_mode: BotMode,
    pub bba_cache: Option<Seq<Call>>,
}

pub open spec fn cache_view(cache: Option<Vec<Call>>) -> Option<Seq<Call>> {
    match cache {
        Some(calls) => Some(calls@),
        None => None,
    }
}

impl View for Room {
    type V = RoomView;

    open spec fn view(&self) -> RoomView {
        RoomView {
            id: self.id@,
            state: self.state@,
            bot_mode: self.bot_mode,
            bba_cache: cache_view(self.bba_cache),
        }
    }
}

impl RoomView {
    pub open spec fn fresh(id: Seq<char>, board: BoardView, grace: TakeoverGrace) -> RoomView {
        RoomView {
            id,
            state: RoomInnerView::fresh(board, grace),
            bot_mode: BotMode::Real,
            bba_cache: None,
        }
    }

    /// A fresh board is on the table; the predicted auction is forgotten.
    pub open spec fn on_board(self, board: BoardView, index: usize) -> RoomView {
        RoomView { state: self.state.on_board(board, index), bba_cache: None, ..self }
    }
}

impl Room {
    pub fn new(id: String, board: BoardSetup, grace: TakeoverGrace) -> (r: Room)
        ensures
            r@ == RoomView::fresh(id@, board@, grace),
            r@.state.wf(),
    {
        Room {
            id,
            state: RoomInner::new(board, grace),
            bot_mode: BotMode::Real,
            bba_cache: None,
        }
    }

    /// The room's current bot backend.
    pub fn bot_mode(&self) -> (r: BotMode)
        ensures
            r == self@.bot_mode,
    {
        self.bot_mode
    }

    /// Switch the room's bot backend (sticky; see `BotMode`).
    pub fn set_bot_mode(&mut self, mode: BotMode)
        ensures
            final(self)@ == (RoomView { bot_mode: mode, ..old(self)@ }),
    {
        self.bot_mode = mode;
    }

    /// Puts a fresh board on the table. A new board invalidates the predicted
    /// auction.
    pub fn start_board(&mut self, board: BoardSetup, index: usize)
        ensures
            final(self)@ == old(self)@.on_board(board@, index),
            final(self)@.state.wf(),
    {
        self.state.start_board(board, index);
        self.bba_cache = None;
    }
}

/// The demo deal.
pub open spec fn demo_deal() -> DealView {
    DealView {
        north: holding("K843"@, "T542"@, "J6"@, "863"@),
        east: holding("AQJ7"@, "K"@, "Q75"@, "AT942"@),
        south: holding("962"@, "AJ7"@, "KT82"@, "J75"@),
        west: holding("T5"@, "Q9863"@, "A943"@, "KQ"@),
    }
}

/// The demo deal gives each seat thirteen cards.
proof fn lemma_demo_deal_full()
    ensures
        forall|d: Direction| #[trigger] demo_deal().hand(d).len() == 13,
        demo_deal().total_cards() == 52,
{
    reveal_strlit("K843");
    reveal_strlit("T542");
    reveal_strlit("J6");
    reveal_strlit("863");
    reveal_strlit("AQJ7");
    reveal_strlit("K");
    reveal_strlit("Q75");
    reveal_strlit("AT942");
    reveal_strlit("962");
    reveal_strlit("AJ7");
    reveal_strlit("KT82");
    reveal_strlit("J75");
    reveal_strlit("T5");
    reveal_strlit("Q9863");
    reveal_strlit("A943");
    reveal_strlit("KQ");
    lemma_suited_len(Suit::Spades, "K843"@);
    lemma_suited_len(Suit::Hearts, "T542"@);
    lemma_suited_len(Suit::Diamonds, "J6"@);
    lemma_suited_len(Suit::Clubs, "863"@);
    lemma_suited_len(Suit::Spades, "AQJ7"@);
    lemma_suited_len(Suit::Hearts, "K"@);
    lemma_suited_len(Suit::Diamonds, "Q75"@);
    lemma_suited_len(Suit::Clubs, "AT942"@);
    lemma_suited_len(Suit::Spades, "962"@);
    lemma_suited_len(Suit::Hearts, "AJ7"@);
    lemma_suited_len(Suit::Diamonds, "KT82"@);
    lemma_suited_len(Suit::Clubs, "J75"@);
    lemma_suited_len(Suit::Spades, "T5"@);
    lemma_suited_len(Suit::Hearts, "Q9863"@);
    lemma_suited_len(Suit::Diamonds, "A943"@);
    lemma_suited_len(Suit::Clubs, "KQ"@);
}

/// What the demo board is.
pub open spec fn demo_board_view() -> BoardView {
    BoardView {
        number: 1,
        dealer: Direction::North,
        vulnerable: Vulnerability::Neither,
        deal: demo_deal(),
        play_line: None,
    }
}

/// A fixed, valid deal so the demo table is deterministic.
pub fn demo_board() -> (r: BoardSetup)
    ensures
        r@ == demo_board_view(),
        r.deal@.total_cards() == 52,
        forall|d: Direction| #[trigger] r.deal@.hand(d).len() == 13,
{
    let deal = Deal {
        north: hand("K843", "T542", "J6", "863"),
        east: hand("AQJ7", "K", "Q75", "AT942"),
        south: hand("962", "AJ7", "KT82", "J75"),
        west: hand("T5", "Q9863", "A943", "KQ"),
    };
    proof {
        assert(deal@ =~= demo_deal());
        lemma_demo_deal_full();
    }
    BoardSetup {
        number: 1,
        dealer: Direction::North,
        vulnerable: Vulnerability::Neither,
        deal,
        play_line: None,
    }
}

/// The throwaway board of a session that has no boards yet: a full deal, so
/// that its tables are valid.
pub fn placeholder_board() -> (r: BoardSetup)
    ensures
        r@ == demo_board_view(),
        r.deal@.total_cards() == 52,
{
    demo_board()
}

/// A room on the demo board.
pub fn demo_room() -> (r: Room)
    ensures
        r@ == RoomView::fresh("demo"@, demo_board_view(), TakeoverGrace::standard()),
        r@.state.wf(),
{
    Room::new("demo".to_owned(), demo_board(), TakeoverGrace::standard())
}

} // verus!
