//! Bot seats.
//!
//! Any unoccupied seat is a bot (unless it was emptied on purpose), and a seat
//! whose human has been disconnected past the grace period is bot-driven until
//! the human reconnects. One exception: a human declarer plays the dummy's
//! cards, so the dummy seat is driven by whoever controls the declarer seat,
//! not a bot. Bidding is BBA (prefix-cached, see `bba`), cardplay is BEN (see
//! `ben`), and every suggestion is validated through the engine with a
//! rule-based card (Pass, for bidding) as the always-available fallback — a
//! slow or wrong bot can never freeze or corrupt a table.
//!
//! The driver is undo-safe by construction: every turn plans from the folded
//! state, leaves the table alone while the (possibly slow) backends think, and
//! finishes only if the table's seq is unchanged — a human action or undo that
//! lands mid-think just discards the stale suggestion, and the next turn
//! re-decides.

pub mod bba;
pub mod ben;

use vstd::prelude::*;

use crate::actions::{action_event, announce, law_told, told};
use crate::cards::{
    copy_calls, copy_cards, hand_text, hand_to_pbn, same_cards, Call, Card, DealView, Direction, Vulnerability,
};
use crate::chance::random_u64;
use crate::engine::auction;
use crate::engine::auction::ContractOutcome;
use crate::engine::play;
use crate::events::{Event, Notice, Via};
use crate::rooms::{
    cache_view, BoardMode, BotMode, Room, RoomInner, RoomInnerView, RoomView,
};
use crate::seating::Side;
use crate::sessions::{Session, SessionView};
use crate::table::{
    current_lead_suit, lead_suit_of, on_book, plays_of, unplayed, Action, ActionError, BoardSetup,
    BoardView, Folded, Phase, PlayLine, TableState, TableView,
};

verus! {

/// Pacing in milliseconds: a beat between plays, a longer beat after a
/// completed trick.
pub const BETWEEN_PLAYS: u64 = 300;

pub const AFTER_TRICK: u64 = 1_000;

/// Keepalive watchdog cadence in milliseconds — how often an idle room
/// re-checks whether a bot should act. This is what makes zombie-seat takeover
/// happen without another human action.
pub const KEEPALIVE_INTERVAL: u64 = 10_000;

/// The bot backends.
#[derive(Debug)]
pub struct Clients {
    pub ben: ben::BenClient,
    pub bba: bba::BbaClient,
}

/// How the bot backends are reached. `ben_timeout` is the per-call BEN budget
/// in milliseconds; BBA keeps its own fixed budget (bidding shouldn't stall an
/// auction that long).
pub fn init(ben_url: &str, bba_url: &str, ben_timeout: u64) -> (r: Clients)
    ensures
        r.ben.base@ == crate::text::without_trailing(ben_url@, '/'),
        r.ben.timeout_ms == ben_timeout,
        r.bba.base@ == crate::text::without_trailing(bba_url@, '/'),
{
    Clients { ben: ben::BenClient::new(ben_url, ben_timeout), bba: bba::BbaClient::new(bba_url) }
}

/// Where the deterministic pick falls.
pub open spec fn pick_index(seq: usize, n: int) -> int {
    seq.wrapping_mul(2654435761) as int % n
}

/// The pick is one of the options and goes by the sequence number alone: while the
/// product fits, the number times a fixed odd factor says how far to count, round
/// and round, from the first option.
pub proof fn law_pick(seq: usize, n: int)
    requires
        n > 0,
    ensures
        0 <= pick_index(seq, n) < n,
        pick_index(0, n) == 0,
        seq * 2654435761 <= usize::MAX ==> (seq * 2654435761 - pick_index(seq, n)) % n == 0,
{
    if seq * 2654435761 <= usize::MAX {
        let product = seq as int * 2654435761;
        vstd::arithmetic::div_mod::lemma_small_mod(product as nat, (usize::MAX + 1) as nat);
        assert(seq.wrapping_mul(2654435761) == product);
        vstd::arithmetic::div_mod::lemma_fundamental_div_mod(product, n);
        let q = product / n;
        assert(product - product % n == n * q);
        vstd::arithmetic::div_mod::lemma_mod_multiples_basic(q, n);
        vstd::arithmetic::mul::lemma_mul_is_commutative(n, q);
    }
    vstd::arithmetic::div_mod::lemma_small_mod(0, (usize::MAX + 1) as nat);
    vstd::arithmetic::div_mod::lemma_small_mod(0, n as nat);
}

/// Deterministic "random" pick: multiplicative hash of the action seq.
/// Deterministic fallbacks make failures replayable.
pub fn pick<T: Copy>(options: &[T], seq: usize) -> (r: T)
    requires
        options@.len() > 0,
    ensures
        r == options@[pick_index(seq, options@.len() as int)],
        options@.contains(r),
{
    let i: usize = seq.wrapping_mul(2654435761) % options.len();
    assert(i == pick_index(seq, options@.len() as int));
    options[i]
}

/// Bid-only boards have no bot cardplay.
pub open spec fn allows_bot(mode: BoardMode, phase: Phase) -> bool {
    !(mode == BoardMode::BidOnly && phase == Phase::Play)
}

/// In play-only boards bots bid for every seat.
pub open spec fn forces_bot(mode: BoardMode, phase: Phase) -> bool {
    mode == BoardMode::PlayOnly && phase == Phase::Bidding
}

/// Board-mode gate for the driver: bid-only boards have no bot cardplay
/// (the board is over at the contract); play-only boards let bots bid for
/// EVERY seat (the auction is automatic).
pub fn mode_allows_bot(inner: &RoomInner, f: &Folded) -> (r: bool)
    ensures
        r == allows_bot(inner.board_mode, f.phase),
{
    !(inner.board_mode == BoardMode::BidOnly && f.phase == Phase::Play)
}

pub fn mode_forces_bot(inner: &RoomInner, f: &Folded) -> (r: bool)
    ensures
        r == forces_bot(inner.board_mode, f.phase),
{
    inner.board_mode == BoardMode::PlayOnly && f.phase == Phase::Bidding
}

/// Who answers for a seat: for the declaring side's seats whoever plays them,
/// for the others their own occupant.
pub open spec fn answers_for(
    room: RoomInnerView,
    contract: Option<ContractOutcome>,
    seat: Direction,
    now: u64,
) -> Direction {
    match contract {
        Some(c) => if seat == c.spec_dummy() || seat == c.declarer {
            room.controller(c.declarer, true, now)
        } else {
            seat
        },
        None => seat,
    }
}

/// Whether the bot driver acts for a seat.
pub open spec fn bot_seat(
    room: RoomInnerView,
    contract: Option<ContractOutcome>,
    seat: Direction,
    now: u64,
) -> bool {
    room.bot_controlled(answers_for(room, contract, seat, now), true, now)
}

/// Whether the bot driver should act for `seat`. Control of the dummy
/// belongs to whoever controls the declarer seat (bridge: declarer plays
/// dummy's cards); a human dummy plays the hand for a bot declarer. This is
/// only ever asked about the seat on turn, so the on-turn grace period applies.
pub fn is_bot_seat(inner: &RoomInner, f: &Folded, seat: Direction, now: u64) -> (r: bool)
    ensures
        r == bot_seat(inner@, f.contract, seat, now),
{
    let controller = match &f.contract {
        Some(c) => if seat == c.dummy() || seat == c.declarer {
            inner.declarer_side_controller(c.declarer, true, now)
        } else {
            seat
        },
        None => seat,
    };
    inner.seat_bot_controlled(controller, true, now)
}

/// Whether it is a bot's turn. While bots are on hold (paused, or no boards are
/// loaded) it never is.
pub open spec fn turn_pending(room: RoomInnerView, on_hold: bool, now: u64) -> bool {
    let f = room.table.folded();
    match f.next_to_act {
        Some(seat) => !on_hold && allows_bot(room.board_mode, f.phase) && bot_seat(
            room,
            f.contract,
            seat,
            now,
        ),
        None => false,
    }
}

/// Whether it is a bot's turn.
pub fn bot_turn_pending(inner: &RoomInner, on_hold: bool, now: u64) -> (r: bool)
    requires
        inner@.wf(),
    ensures
        r == turn_pending(inner@, on_hold, now),
{
    proof {
        crate::table::lemma_wf_foldable(inner.table);
    }
    let f = inner.table.fold();
    match f.next_to_act {
        Some(seat) => !on_hold && mode_allows_bot(inner, &f) && is_bot_seat(inner, &f, seat, now),
        None => false,
    }
}

/// A bot's bid that is due.
#[derive(Debug)]
pub struct BidPending {
    pub seat: Direction,
    pub seq: usize,
    pub board: BoardSetup,
    pub calls: Vec<Call>,
    /// The seat's side always passes.
    pub pass: bool,
}

/// A bot's bid that is due.
pub ghost struct BidPendingView {
    pub seat: Direction,
    pub seq: nat,
    pub board: BoardView,
    pub calls: Seq<Call>,
    pub pass: bool,
}

impl View for BidPending {
    type V = BidPendingView;

    open spec fn view(&self) -> BidPendingView {
        BidPendingView {
            seat: self.seat,
            seq: self.seq as nat,
            board: self.board@,
            calls: self.calls@,
            pass: self.pass,
        }
    }
}

/// A bot's play that is due, with everything that a bot needs to decide.
#[derive(Debug)]
pub struct PlayPending {
    pub seat: Direction,
    pub seq: usize,
    /// Engine-legal cards for `seat` — the validation set and the fallback pool.
    pub legal: Vec<Card>,
    pub opening_lead: bool,
    /// Whose cards BEN is told: the declarer for declarer-side plays (incl.
    /// dummy's cards), the defender itself otherwise.
    pub decision_maker: Direction,
    pub declarer: Direction,
    /// The decision-maker's ORIGINAL 13 cards.
    pub hand_pbn: String,
    /// Dummy's ORIGINAL 13 cards.
    pub dummy_pbn: String,
    pub dealer: Direction,
    pub vul: Vulnerability,
    /// The auction as BEN writes it.
    pub ctx: String,
    /// The play as BEN writes it.
    pub played: String,
    /// The acting seat's remaining cards (superset of `legal`).
    pub remaining: Vec<Card>,
    /// Dummy's ORIGINAL 13 cards.
    pub dummy_cards: Vec<Card>,
    /// The auction, in call order from the dealer.
    pub calls: Vec<Call>,
    /// Chronological play history, all seats.
    pub played_pairs: Vec<(Direction, Card)>,
    pub contract: ContractOutcome,
    /// What the recorded play scripts here, while play is on book.
    pub scripted: Option<Card>,
}

/// A bot's play that is due.
pub ghost struct PlayPendingView {
    pub seat: Direction,
    pub seq: nat,
    pub legal: Seq<Card>,
    pub opening_lead: bool,
    pub decision_maker: Direction,
    pub declarer: Direction,
    pub hand_pbn: Seq<char>,
    pub dummy_pbn: Seq<char>,
    pub dealer: Direction,
    pub vul: Vulnerability,
    pub ctx: Seq<char>,
    pub played: Seq<char>,
    pub remaining: Seq<Card>,
    pub dummy_cards: Seq<Card>,
    pub calls: Seq<Call>,
    pub played_pairs: Seq<(Direction, Card)>,
    pub contract: ContractOutcome,
    pub scripted: Option<Card>,
}

impl View for PlayPending {
    type V = PlayPendingView;

    open spec fn view(&self) -> PlayPendingView {
        PlayPendingView {
            seat: self.seat,
            seq: self.seq as nat,
            legal: self.legal@,
            opening_lead: self.opening_lead,
            decision_maker: self.decision_maker,
            declarer: self.declarer,
            hand_pbn: self.hand_pbn@,
            dummy_pbn: self.dummy_pbn@,
            dealer: self.dealer,
            vul: self.vul,
            ctx: self.ctx@,
            played: self.played@,
            remaining: self.remaining@,
            dummy_cards: self.dummy_cards@,
            calls: self.calls@,
            played_pairs: self.played_pairs@,
            contract: self.contract,
            scripted: self.scripted,
        }
    }
}

/// What is due: a bid or a play.
#[derive(Debug)]
pub enum Pending {
    Bid(BidPending),
    Play(PlayPending),
}

/// What is due: a bid or a play.
pub ghost enum PendingView {
    Bid(BidPendingView),
    Play(PlayPendingView),
}

impl View for Pending {
    type V = PendingView;

    open spec fn view(&self) -> PendingView {
        match self {
            Pending::Bid(b) => PendingView::Bid(b@),
            Pending::Play(p) => PendingView::Play(p@),
        }
    }
}

/// What a recorded play scripts for a seat's next turn: its next card, while
/// all play is on book and the card is legal.
pub open spec fn scripted_card(
    line: Option<DealView>,
    played: Seq<(Direction, Card)>,
    seat: Direction,
    legal: Seq<Card>,
) -> Option<Card> {
    match line {
        Some(l) => {
            let n = plays_of(played, seat).len() as int;
            if on_book(l, played) && n < l.hand(seat).len() && legal.contains(l.hand(seat)[n]) {
                Some(l.hand(seat)[n])
            } else {
                None
            }
        },
        None => None,
    }
}

/// How many cards a seat has played.
fn count_plays(played: &Vec<(Direction, Card)>, seat: Direction) -> (r: usize)
    ensures
        r == plays_of(played@, seat).len(),
{
    let mut n: usize = 0;
    let mut i: usize = 0;
    while i < played.len()
        invariant
            i <= played.len(),
            n <= i,
            n == plays_of(played@.subrange(0, i as int), seat).len(),
        decreases played.len() - i,
    {
        proof {
            let longer = played@.subrange(0, i + 1);
            assert(longer.drop_last() =~= played@.subrange(0, i as int));
            assert(longer.last() == played@[i as int]);
        }
        if played[i].0 == seat {
            n = n + 1;
        }
        i = i + 1;
    }
    assert(played@.subrange(0, i as int) =~= played@);
    n
}

fn next_scripted(
    line: &Option<PlayLine>,
    played: &Vec<(Direction, Card)>,
    seat: Direction,
    legal: &Vec<Card>,
) -> (r: Option<Card>)
    ensures
        r == scripted_card(
            match *line {
                Some(l) => Some(l@),
                None => None,
            },
            played@,
            seat,
            legal@,
        ),
{
    match line {
        Some(l) => {
            if l.diverged(played.as_slice()) {
                return None;
            }
            match l.card_for(seat, count_plays(played, seat)) {
                Some(card) => if play::holds_card(legal.as_slice(), card) {
                    Some(card)
                } else {
                    None
                },
                None => None,
            }
        },
        None => None,
    }
}

/// Whose cards BEN is told when a seat plays.
pub open spec fn decider(c: ContractOutcome, seat: Direction) -> Direction {
    if seat == c.declarer || seat == c.spec_dummy() {
        c.declarer
    } else {
        seat
    }
}

/// The play that is due at a seat.
pub open spec fn due_play(t: TableView, seat: Direction) -> PlayPendingView {
    let f = t.folded();
    let c = f.contract->0;
    let remaining = unplayed(t.board.deal.hand(seat), f.played, seat);
    let legal = play::playable(remaining, lead_suit_of(f.current_trick));
    PlayPendingView {
        seat,
        seq: t.log.len(),
        legal,
        opening_lead: f.played.len() == 0,
        decision_maker: decider(c, seat),
        declarer: c.declarer,
        hand_pbn: hand_text(t.board.deal.hand(decider(c, seat))),
        dummy_pbn: hand_text(t.board.deal.hand(c.spec_dummy())),
        dealer: t.board.dealer,
        vul: t.board.vulnerable,
        ctx: ben::ben_auction(f.calls),
        played: ben::ben_plays(f.played),
        remaining,
        dummy_cards: t.board.deal.hand(c.spec_dummy()),
        calls: f.calls,
        played_pairs: f.played,
        contract: c,
        scripted: scripted_card(t.board.play_line, f.played, seat, legal),
    }
}

/// What a bot has to do now, if anything: nothing while bots are on hold, when
/// nobody is to act, when the board mode leaves bots out, when a human answers
/// for the seat, or when there is no legal card.
pub open spec fn due(room: RoomInnerView, on_hold: bool, now: u64) -> Option<PendingView> {
    let t = room.table;
    let f = t.folded();
    match f.next_to_act {
        None => None,
        Some(seat) => if on_hold || !allows_bot(room.board_mode, f.phase) || !(forces_bot(
            room.board_mode,
            f.phase,
        ) || bot_seat(room, f.contract, seat, now)) {
            None
        } else {
            match f.phase {
                Phase::Bidding => Some(
                    PendingView::Bid(
                        BidPendingView {
                            seat,
                            seq: t.log.len(),
                            board: t.board,
                            calls: f.calls,
                            pass: room.pass_sides.has(Side::of(seat)) && bot_seat(
                                room,
                                f.contract,
                                seat,
                                now,
                            ),
                        },
                    ),
                ),
                Phase::Play => if f.contract is Some && due_play(t, seat).legal.len() > 0 {
                    Some(PendingView::Play(due_play(t, seat)))
                } else {
                    None
                },
                Phase::Complete => None,
            }
        },
    }
}

/// Copies a play history.
fn copy_plays(played: &Vec<(Direction, Card)>) -> (r: Vec<(Direction, Card)>)
    ensures
        r@ == played@,
{
    let mut r: Vec<(Direction, Card)> = Vec::new();
    let mut i: usize = 0;
    while i < played.len()
        invariant
            i <= played.len(),
            r@ == played@.subrange(0, i as int),
        decreases played.len() - i,
    {
        r.push(played[i]);
        i = i + 1;
    }
    r
}

fn plan_play(state: &TableState, f: &Folded, c: ContractOutcome, seat: Direction) -> (r: PlayPending)
    requires
        f@ == state@.folded(),
        f.contract == Some(c),
    ensures
        r@ == due_play(state@, seat),
{
    let remaining = state.remaining(seat, f);
    let lead = current_lead_suit(f);
    let legal = play::legal_cards(remaining.as_slice(), lead);
    let decision_maker = if seat == c.declarer || seat == c.dummy() {
        c.declarer
    } else {
        seat
    };
    let board = &state.board;
    let scripted = next_scripted(&board.play_line, &f.played, seat, &legal);
    PlayPending {
        seat,
        seq: state.seq(),
        legal,
        opening_lead: f.played.len() == 0,
        decision_maker,
        declarer: c.declarer,
        hand_pbn: hand_to_pbn(board.deal.hand(decision_maker).as_slice()),
        dummy_pbn: hand_to_pbn(board.deal.hand(c.dummy()).as_slice()),
        dealer: board.dealer,
        vul: board.vulnerable,
        ctx: ben::calls_to_ctx(f.calls.as_slice()),
        played: ben::played_to_string(f.played.as_slice()),
        remaining,
        dummy_cards: copy_cards(board.deal.hand(c.dummy()).as_slice()),
        calls: copy_calls(f.calls.as_slice()),
        played_pairs: copy_plays(&f.played),
        contract: c,
        scripted,
    }
}

/// Decides whether a bot must act, and captures what it needs.
pub fn plan(inner: &RoomInner, on_hold: bool, now: u64) -> (r: Option<Pending>)
    requires
        inner@.wf(),
    ensures
        match r {
            Some(pending) => due(inner@, on_hold, now) == Some(pending@),
            None => due(inner@, on_hold, now) is None,
        },
{
    proof {
        crate::table::lemma_wf_foldable(inner.table);
    }
    let f = inner.table.fold();
    let seat = match f.next_to_act {
        Some(seat) => seat,
        None => {
            return None;
        },
    };
    if on_hold || !mode_allows_bot(inner, &f) {
        return None;
    }
    let bot = is_bot_seat(inner, &f, seat, now);
    if !mode_forces_bot(inner, &f) && !bot {
        return None;
    }
    match f.phase {
        Phase::Bidding => Some(
            Pending::Bid(
                BidPending {
                    seat,
                    seq: inner.table.seq(),
                    board: inner.table.board.copy(),
                    calls: copy_calls(f.calls.as_slice()),
                    pass: inner.pass_sides.contains(Side::of(seat)) && bot,
                },
            ),
        ),
        Phase::Play => match f.contract {
            Some(c) => {
                let p = plan_play(&inner.table, &f, c, seat);
                if p.legal.len() == 0 {
                    None
                } else {
                    Some(Pending::Play(p))
                }
            },
            None => None,
        },
        Phase::Complete => None,
    }
}

/// The cached prediction's next call, if it is legal.
pub open spec fn cached_call(cache: Option<Seq<Call>>, calls: Seq<Call>) -> Option<Call> {
    match bba::next_predicted(cache, calls) {
        Some(call) => if auction::legal(calls, call) {
            Some(call)
        } else {
            None
        },
        None => None,
    }
}

/// What is left of a cached prediction once its next call has been looked up.
pub open spec fn cache_after_lookup(cache: Option<Seq<Call>>, calls: Seq<Call>) -> Option<
    Seq<Call>,
> {
    match bba::next_predicted(cache, calls) {
        Some(call) => if auction::legal(calls, call) {
            cache
        } else {
            None
        },
        None => cache,
    }
}

/// What is cached once BBA has answered, or has not.
pub open spec fn cache_after_answer(
    cache: Option<Seq<Call>>,
    predicted: Option<Seq<Call>>,
) -> Option<Seq<Call>> {
    match predicted {
        Some(_) => predicted,
        None => cache,
    }
}

/// A cached prediction is dropped exactly if the call that it gives is illegal;
/// one that gives no call is kept, and so is one whose call is served. What BBA
/// answers takes the place of what was cached; without an answer that stays.
pub proof fn law_cache(cache: Option<Seq<Call>>, calls: Seq<Call>, predicted: Option<Seq<Call>>)
    ensures
        cached_call(cache, calls) is Some ==> cache_after_lookup(cache, calls) == cache,
        bba::next_predicted(cache, calls) is None ==> cache_after_lookup(cache, calls) == cache,
        cache_after_lookup(cache, calls) != cache ==> cache_after_lookup(cache, calls) is None
            && !auction::legal(calls, bba::next_predicted(cache, calls)->0),
        cached_call(cache_after_lookup(cache, calls), calls) == cached_call(cache, calls),
        bba::next_predicted(cache_after_lookup(cache, calls), calls) == cached_call(cache, calls),
        predicted is Some ==> cache_after_answer(cache, predicted) == predicted,
        cache_after_answer(cache, None) == cache,
{
}

/// Serves a bot call from the room's cached prediction. A cached prediction the
/// engine rejects can only recur — it is dropped.
pub fn choose_call_cached(cache: &mut Option<Vec<Call>>, dealer: Direction, calls: &[Call]) -> (r:
    Option<(Call, Via)>)
    ensures
        r == (match cached_call(cache_view(*old(cache)), calls@) {
            Some(call) => Some((call, Via::Bba)),
            None => None,
        }),
        cache_view(*final(cache)) == (if r is None && bba::next_predicted(
            cache_view(*old(cache)),
            calls@,
        ) is Some {
            None
        } else {
            cache_view(*old(cache))
        }),
        cache_view(*final(cache)) == cache_after_lookup(cache_view(*old(cache)), calls@),
{
    if let Some(call) = bba::continuation(cache, calls) {
        if auction::is_legal(dealer, calls, &call) {
            return Some((call, Via::Bba));
        }
        *cache = None;
    }
    None
}

/// Whether two boards are the same board: number, dealer, vulnerability and deal.
pub open spec fn same_board(a: BoardView, b: BoardView) -> bool {
    a.number == b.number && a.dealer == b.dealer && a.vulnerable == b.vulnerable && a.deal
        == b.deal
}

/// Whether the board that a bid is due on is still on the table. A prediction for
/// a board that has left the table is not to be cached.
pub fn still_on_table(inner: &RoomInner, b: &BidPending) -> (r: bool)
    ensures
        r == same_board(inner@.table.board, b@.board),
{
    let (x, y) = (&inner.table.board, &b.board);
    let r = x.number == y.number && x.dealer == y.dealer && x.vulnerable == y.vulnerable
        && same_cards(x.deal.north.as_slice(), y.deal.north.as_slice()) && same_cards(
        x.deal.east.as_slice(),
        y.deal.east.as_slice(),
    ) && same_cards(x.deal.south.as_slice(), y.deal.south.as_slice()) && same_cards(
        x.deal.west.as_slice(),
        y.deal.west.as_slice(),
    );
    proof {
        let (d, e) = (x.deal@, y.deal@);
        assert((d == e) == (d.north == e.north && d.east == e.east && d.south == e.south && d.west
            == e.west));
    }
    r
}

/// The call that BBA's answer gives.
pub open spec fn chosen_call(calls: Seq<Call>, predicted: Option<Seq<Call>>) -> (Call, Via) {
    match cached_call(predicted, calls) {
        Some(call) => (call, Via::Bba),
        None => (Call::Pass, Via::Fallback),
    }
}

/// Pick a bot call once BBA has answered (`None`: it failed, or there is none):
/// the prediction is cached and its next call is served if it is legal; else
/// Pass (always legal mid-auction).
pub fn choose_call(
    cache: &mut Option<Vec<Call>>,
    dealer: Direction,
    calls: &[Call],
    predicted: Option<Vec<Call>>,
) -> (r: (Call, Via))
    ensures
        r == chosen_call(calls@, cache_view(predicted)),
        cache_view(*final(cache)) == (if predicted is Some {
            cache_view(predicted)
        } else {
            cache_view(*old(cache))
        }),
        cache_view(*final(cache)) == cache_after_answer(
            cache_view(*old(cache)),
            cache_view(predicted),
        ),
{
    match predicted {
        Some(predicted) => {
            *cache = Some(predicted);
            match bba::continuation(cache, calls) {
                Some(call) => if auction::is_legal(dealer, calls, &call) {
                    (call, Via::Bba)
                } else {
                    (Call::Pass, Via::Fallback)
                },
                None => (Call::Pass, Via::Fallback),
            }
        },
        None => (Call::Pass, Via::Fallback),
    }
}

/// Where BEN is asked for a play: `/lead` for the opening lead, `/play`
/// otherwise.
pub open spec fn ben_path(p: PlayPendingView) -> Seq<char> {
    if p.opening_lead {
        "/lead"@
    } else {
        "/play"@
    }
}

/// What BEN is asked. The vulnerability is as the decision-maker sees it.
pub open spec fn ben_asked(p: PlayPendingView) -> Seq<(Seq<char>, Seq<char>)> {
    let vul = ben::ben_vulnerability(p.vul, p.decision_maker);
    if p.opening_lead {
        seq![
            ("hand"@, p.hand_pbn),
            ("seat"@, seq![p.seat.to_char()]),
            ("dealer"@, seq![p.dealer.to_char()]),
            ("vul"@, vul),
            ("ctx"@, p.ctx),
        ]
    } else {
        seq![
            ("hand"@, p.hand_pbn),
            ("dummy"@, p.dummy_pbn),
            ("seat"@, seq![p.decision_maker.to_char()]),
            ("dealer"@, seq![p.dealer.to_char()]),
            ("vul"@, vul),
            ("ctx"@, p.ctx),
            ("played"@, p.played),
        ]
    }
}

/// What BEN is asked for a play: the path and the query.
pub fn ben_query(client: &ben::BenClient, p: &PlayPending) -> (r: (
    &'static str,
    Vec<(&'static str, String)>,
))
    ensures
        r.0@ == ben_path(p@),
        ben::query_view(r.1@) == ben_asked(p@),
{
    let vul = ben::vul_to_ben(p.vul, p.decision_maker);
    if p.opening_lead {
        ("/lead", client.lead(p.hand_pbn.as_str(), p.seat, p.dealer, vul, p.ctx.as_str()))
    } else {
        (
            "/play",
            client.play(
                p.hand_pbn.as_str(),
                p.dummy_pbn.as_str(),
                p.decision_maker,
                p.dealer,
                vul,
                p.ctx.as_str(),
                p.played.as_str(),
            ),
        )
    }
}

/// Whose card BEN's answer is said to be.
pub open spec fn named_player(p: PlayPendingView, player: Option<u64>) -> Option<u64> {
    if p.opening_lead {
        None
    } else {
        player
    }
}

/// An answer to an opening lead names no player, whatever it says; an answer to a
/// play names whom it says.
pub proof fn law_named_player(p: PlayPendingView, player: Option<u64>)
    ensures
        ben_path(p) == "/lead"@ ==> named_player(p, player) is None,
        ben_path(p) == "/play"@ ==> named_player(p, player) == player,
{
    reveal_strlit("/lead");
    reveal_strlit("/play");
    assert("/lead"@[1] == 'l' && "/play"@[1] == 'p');
}

/// What BEN's answer names. Only a play's answer says whose card it is.
pub fn ben_answer(p: &PlayPending, reply: &ben::BenReply) -> (r: Result<
    (Card, Option<u64>),
    String,
>)
    ensures
        match ben::card_of_reply(ben_path(p@), *reply) {
            Ok((card, player)) => r == Ok::<(Card, Option<u64>), String>(
                (
                    card,
                    if p.opening_lead {
                        None
                    } else {
                        player
                    },
                ),
            ),
            Err(e) => r is Err && r->Err_0@ == e,
        },
        ben::card_of_reply(ben_path(p@), *reply) matches Ok((_, player)) ==> (r matches Ok((_, named))
            && named == named_player(p@, player)),
{
    let path = if p.opening_lead {
        "/lead"
    } else {
        "/play"
    };
    match ben::read_reply(path, reply) {
        Ok((card, player)) => Ok(
            (
                card,
                if p.opening_lead {
                    None
                } else {
                    player
                },
            ),
        ),
        Err(e) => Err(e),
    }
}

/// Whether BEN's answer is accepted: it names the acting seat or the
/// decision-maker, if any seat, and a legal card.
pub open spec fn ben_accepted(p: PlayPendingView, card: Card, player: Option<u64>) -> bool {
    &&& match player {
        Some(pl) => p.declarer.plus(pl + 1) == p.seat || p.declarer.plus(pl + 1)
            == p.decision_maker,
        None => true,
    }
    &&& p.legal.contains(card)
}

/// The card that is played by rule, or the deterministic pick if there is none.
pub open spec fn ruled_card(p: PlayPendingView, decision: Option<Card>) -> Card {
    match decision {
        Some(card) => card,
        None => p.legal[pick_index(p.seq as usize, p.legal.len() as int)],
    }
}

/// Rule-based card: deterministic, sub-millisecond. Serves as the Rules bot
/// mode and as the cardplay fallback while BEN is cold/slow/wrong. `decision`
/// is the rule-based player's; without one the deterministic pick serves.
pub fn rules_card(p: &PlayPending, decision: Option<Card>) -> (r: Card)
    requires
        p.legal@.len() > 0,
    ensures
        r == ruled_card(p@, decision),
{
    match decision {
        Some(card) => card,
        None => pick(p.legal.as_slice(), p.seq),
    }
}

/// The card that BEN's answer gives.
pub open spec fn chosen_card(
    p: PlayPendingView,
    reply: Option<(Card, Option<u64>)>,
    decision: Option<Card>,
) -> (Card, Via) {
    match reply {
        Some((card, player)) => if ben_accepted(p, card, player) {
            (card, Via::Ben)
        } else {
            (ruled_card(p, decision), Via::Rules)
        },
        None => (ruled_card(p, decision), Via::Rules),
    }
}

/// Pick a bot card once BEN has answered (`None`: it failed, or there is none):
/// BEN's, unless it is illegal or names the wrong seat; else the rule-based one.
/// Live BEN names the decision-maker, not the physical seat; either is
/// accepted, the legality check against the acting seat's cards is the real
/// guard.
pub fn choose_card(
    p: &PlayPending,
    reply: Option<(Card, Option<u64>)>,
    decision: Option<Card>,
) -> (r: (Card, Via))
    requires
        p.legal@.len() > 0,
    ensures
        r == chosen_card(p@, reply, decision),
{
    if let Some((card, player)) = reply {
        let matched = match player {
            Some(pl) => {
                let mapped = ben::player_to_seat(pl, p.declarer);
                mapped == p.seat || mapped == p.decision_maker
            },
            None => true,
        };
        if matched && play::holds_card(p.legal.as_slice(), card) {
            return (card, Via::Ben);
        }
    }
    (rules_card(p, decision), Via::Rules)
}

/// What has to be asked before a play can be chosen.
#[derive(Clone, Copy, Debug, PartialEq, Eq, Structural)]
pub enum Ask {
    /// Nothing: the card is there.
    Nothing(Card, Via),
    /// The rule-based player.
    Rules,
    /// BEN, and the rule-based player if BEN's card is no good.
    Ben,
}

/// What has to be asked before a play can be chosen.
pub open spec fn asked(p: PlayPendingView, mode: BotMode) -> Ask {
    match p.scripted {
        Some(card) => Ask::Nothing(card, Via::Line),
        None => match mode {
            BotMode::Real => Ask::Ben,
            BotMode::Random => Ask::Nothing(
                p.legal[pick_index(p.seq as usize, p.legal.len() as int)],
                Via::Random,
            ),
            BotMode::Rules | BotMode::Slow => Ask::Rules,
        },
    }
}

/// What has to be asked before a play can be chosen: nothing where the recorded
/// play scripts it or the room's bots play at random; else the mode's backends.
pub fn ask_for_card(p: &PlayPending, mode: BotMode) -> (r: Ask)
    requires
        p.legal@.len() > 0,
    ensures
        r == asked(p@, mode),
{
    match p.scripted {
        Some(card) => Ask::Nothing(card, Via::Line),
        None => match mode {
            BotMode::Real => Ask::Ben,
            BotMode::Random => Ask::Nothing(pick(p.legal.as_slice(), p.seq), Via::Random),
            BotMode::Rules | BotMode::Slow => Ask::Rules,
        },
    }
}

/// The call that needs no backend.
pub open spec fn ready(b: BidPendingView, mode: BotMode) -> Option<(Call, Via)> {
    if b.pass {
        Some((Call::Pass, Via::Pass))
    } else if mode == BotMode::Random {
        Some((Call::Pass, Via::Random))
    } else {
        None
    }
}

/// The call that needs no backend: a side that always passes does, and so does
/// a room whose bots play at random.
pub fn ready_call(b: &BidPending, mode: BotMode) -> (r: Option<(Call, Via)>)
    ensures
        r == ready(b@, mode),
{
    if b.pass {
        Some((Call::Pass, Via::Pass))
    } else if mode == BotMode::Random {
        Some((Call::Pass, Via::Random))
    } else {
        None
    }
}

/// How long a slow bot thinks, for a number drawn.
pub open spec fn think_time(seat: Direction, drawn: u64) -> int {
    if seat.is_ns() {
        3000 + drawn as int % 7000
    } else {
        0
    }
}

/// A slow bot thinks three to ten seconds at North's seat and at South's, no time
/// at the others; every time in between, to the millisecond, may come up.
pub proof fn law_think_time(seat: Direction, drawn: u64, wanted: int)
    ensures
        seat == Direction::North || seat == Direction::South ==> 3000 <= think_time(seat, drawn)
            < 10000,
        seat == Direction::East || seat == Direction::West ==> think_time(seat, drawn) == 0,
        think_time(seat, drawn) == think_time(seat.partner(), drawn),
        seat == Direction::South && 0 <= wanted < 7000 ==> think_time(seat, wanted as u64) - 3000
            == wanted,
{
}

/// How long a slow bot thinks, for a number drawn: three to ten seconds at the
/// North and South seats, no time at the others.
pub fn think_ms(seat: Direction, drawn: u64) -> (r: u64)
    ensures
        r == think_time(seat, drawn),
        r == (if seat.is_ns() {
            3000 + drawn % 7000
        } else {
            0
        }),
{
    if seat.north_south() {
        3000 + drawn % 7000
    } else {
        0
    }
}

/// Slow mode mimics humans at N/S: a random 3-10s think. E/W stay fast.
pub fn slow_think(mode: BotMode, seat: Direction) -> (r: u64)
    ensures
        mode == BotMode::Slow && seat.is_ns() ==> 3000 <= r < 10000,
        !(mode == BotMode::Slow && seat.is_ns()) ==> r == 0,
{
    if mode == BotMode::Slow {
        think_ms(seat, random_u64())
    } else {
        0
    }
}

/// How a bot's turn ended.
#[derive(Clone, Copy, Debug, PartialEq, Eq, Structural)]
pub enum TurnEnd {
    /// The table had moved on: the suggestion is discarded, and the next turn
    /// decides afresh.
    Stale,
    /// The table refused the action.
    Rejected(ActionError),
    /// The action is in the log. A completed trick is left on the table for a
    /// longer beat.
    Done { trick_pause: bool },
}

impl TurnEnd {
    pub open spec fn goes_on(self) -> bool {
        !(self is Rejected)
    }

    /// Whether the driver takes another turn.
    pub fn acted(&self) -> (r: bool)
        ensures
            r == self.goes_on(),
    {
        match self {
            TurnEnd::Rejected(_) => false,
            _ => true,
        }
    }
}

/// What comes of a suggestion that was made at `seq`.
pub open spec fn turn_end(t: TableView, seq: usize, action: Action, via: Via) -> TurnEnd {
    if t.log.len() != seq {
        TurnEnd::Stale
    } else {
        match t.refusal(action) {
            Some(e) => TurnEnd::Rejected(e),
            None => TurnEnd::Done {
                trick_pause: match action_event(t.then_do(action), action, Some(via)) {
                    Event::CardPlayed { trick_winner, .. } => trick_winner is Some,
                    _ => false,
                },
            },
        }
    }
}

/// Applies a bot's action — unless the world moved while it was thinking (human
/// action or undo). Then the suggestion is stale: it is discarded.
pub fn finish(
    room: &mut Room,
    table: usize,
    seq: usize,
    action: Action,
    via: Via,
    opening_lead: bool,
    in_session: bool,
    out: &mut Vec<Notice>,
) -> (r: TurnEnd)
    requires
        old(room)@.state.wf(),
    ensures
        final(room)@.state.wf(),
        r == turn_end(old(room)@.state.table, seq, action, via),
        ({
            let t = old(room)@.state.table;
            if r is Done {
                &&& final(room)@ == (RoomView {
                    state: RoomInnerView { table: t.then_do(action), ..old(room)@.state },
                    ..old(room)@
                })
                &&& final(out)@ == old(out)@ + told(
                    t.then_do(action),
                    table,
                    action,
                    Some(via),
                    opening_lead,
                    in_session,
                )
            } else {
                final(room)@ == old(room)@ && final(out)@ == old(out)@
            }
        }),
{
    proof {
        crate::table::lemma_wf_foldable(room.state.table);
    }
    if room.state.table.seq() != seq {
        return TurnEnd::Stale;
    }
    match room.state.table.apply(action) {
        Ok(_) => {},
        Err(e) => {
            return TurnEnd::Rejected(e);
        },
    }
    assert(room.state.table@ == old(room)@.state.table.then_do(action));
    let winner = announce(
        &room.state.table,
        table,
        action,
        Some(via),
        opening_lead,
        in_session,
        out,
    );
    TurnEnd::Done { trick_pause: winner.is_some() }
}

impl SessionView {
    /// Bots stay off while they are paused, and until a set is loaded.
    pub open spec fn bots_held(self) -> bool {
        self.bots_paused || self.boards.len() == 0
    }

    /// A bot's turn at a table has ended.
    pub open spec fn bot_acted(
        self,
        i: int,
        seq: usize,
        action: Action,
        via: Via,
        opening_lead: bool,
    ) -> SessionView {
        let room = self.rooms[i];
        let after = room.state.table.then_do(action);
        if turn_end(room.state.table, seq, action, via) is Done {
            SessionView {
                outbox: self.outbox + told(
                    after,
                    i as usize,
                    action,
                    Some(via),
                    opening_lead,
                    true,
                ),
                ..self.with_room(
                    i,
                    RoomView { state: RoomInnerView { table: after, ..room.state }, ..room },
                )
            }
        } else {
            self
        }
    }
}

impl Session {
    /// Bots stay off while they are paused, and until a set is loaded.
    pub fn bots_on_hold(&self) -> (r: bool)
        ensures
            r == self@.bots_held(),
    {
        self.bots_paused || self.deck.boards.len() == 0
    }

    /// What a bot has to do at a table now, if anything.
    pub fn plan_bot(&self, i: usize, now: u64) -> (r: Option<Pending>)
        requires
            self.wf(),
            i < self@.rooms.len(),
        ensures
            match r {
                Some(pending) => due(self@.rooms[i as int].state, self@.bots_held(), now) == Some(
                    pending@,
                ),
                None => due(self@.rooms[i as int].state, self@.bots_held(), now) is None,
            },
    {
        proof {
            assert(self@.rooms[i as int] == self.rooms@[i as int]@);
            assert(self@.room_ok(i as int, self@.rooms[i as int]));
        }
        plan(&self.rooms[i].state, self.bots_on_hold(), now)
    }

    /// Applies a bot's action at a table, unless the table has moved on.
    pub fn finish_bot(
        &mut self,
        i: usize,
        seq: usize,
        action: Action,
        via: Via,
        opening_lead: bool,
    ) -> (r: TurnEnd)
        requires
            old(self).wf(),
            i < old(self)@.rooms.len(),
        ensures
            final(self).wf(),
            r == turn_end(old(self)@.rooms[i as int].state.table, seq, action, via),
            final(self)@ == old(self)@.bot_acted(i as int, seq, action, via, opening_lead),
    {
        let ghost before = self@;
        proof {
            assert(before.rooms[i as int] == self.rooms@[i as int]@);
            assert(before.room_ok(i as int, before.rooms[i as int]));
        }
        let r = finish(
            &mut self.rooms[i],
            i,
            seq,
            action,
            via,
            opening_lead,
            true,
            &mut self.outbox,
        );
        proof {
            let after = before.bot_acted(i as int, seq, action, via, opening_lead);
            assert(self@.rooms =~= after.rooms);
            assert(self@ =~= after);
            assert forall|j: int| 0 <= j < self@.rooms.len() implies self@.room_ok(
                j,
                #[trigger] self@.rooms[j],
            ) by {
                assert(before.room_ok(j, before.rooms[j]));
            }
        }
        r
    }
}

/// The whole of a bot's turn is safe: whatever the backends answer, a call that
/// is served from a prediction is legal, and so is one that falls back.
pub proof fn law_bot_calls_are_legal(cache: Option<Seq<Call>>, calls: Seq<Call>)
    requires
        !auction::complete(calls),
    ensures
        cached_call(cache, calls) matches Some(call) ==> auction::legal(calls, call),
        auction::legal(calls, Call::Pass),
{
}

/// A bot's turn always comes off: as long as the table has not moved on, it
/// accepts Pass, any legal call, and any card of the validation set — so whatever
/// the backends answer, a bot can neither freeze nor corrupt a table.
pub proof fn law_bot_turn_comes_off(
    room: RoomInnerView,
    on_hold: bool,
    now: u64,
    call: Call,
    card: Card,
    via: Via,
)
    requires
        room.table.log.len() <= usize::MAX,
    ensures
        match due(room, on_hold, now) {
            Some(PendingView::Bid(b)) => {
                let seq = b.seq as usize;
                &&& turn_end(
                    room.table,
                    seq,
                    Action::Call { seat: b.seat, call: Call::Pass },
                    via,
                ) is Done
                &&& auction::legal(b.calls, call) ==> turn_end(
                    room.table,
                    seq,
                    Action::Call { seat: b.seat, call },
                    via,
                ) is Done
            },
            Some(PendingView::Play(p)) => {
                let seq = p.seq as usize;
                &&& p.legal.len() > 0
                &&& p.legal.contains(card) ==> turn_end(
                    room.table,
                    seq,
                    Action::Play { seat: p.seat, card },
                    via,
                ) is Done
            },
            None => true,
        },
{
    reveal(crate::table::fold_of);
}

/// Whether a call that is due is accepted, as long as the table has not moved on.
pub open spec fn bid_comes_off(t: TableView, b: BidPendingView, served: (Call, Via)) -> bool {
    let action = Action::Call { seat: b.seat, call: served.0 };
    turn_end(t, b.seq as usize, action, served.1) is Done
}

/// Whether a play that is due is accepted, as long as the table has not moved on.
pub open spec fn play_comes_off(t: TableView, p: PlayPendingView, served: (Card, Via)) -> bool {
    let action = Action::Play { seat: p.seat, card: served.0 };
    turn_end(t, p.seq as usize, action, served.1) is Done
}

/// Whatever the backends answer, what a bot serves is accepted: a cached or
/// fresh prediction, a BEN card, a scripted, ruled or picked one. Of the
/// rule-based player it is supposed that it names a legal card, if any.
pub proof fn law_any_answer_is_accepted(
    room: RoomInnerView,
    on_hold: bool,
    now: u64,
    mode: BotMode,
    prediction: Option<Seq<Call>>,
    reply: Option<(Card, Option<u64>)>,
    decision: Option<Card>,
)
    requires
        room.table.log.len() <= usize::MAX,
        due(room, on_hold, now) matches Some(PendingView::Play(p)) ==> (decision matches Some(card)
            ==> p.legal.contains(card)),
    ensures
        match due(room, on_hold, now) {
            Some(PendingView::Bid(b)) => {
                &&& ready(b, mode) matches Some(served) ==> bid_comes_off(room.table, b, served)
                &&& cached_call(prediction, b.calls) matches Some(call) ==> bid_comes_off(
                    room.table,
                    b,
                    (call, Via::Bba),
                )
                &&& bid_comes_off(room.table, b, chosen_call(b.calls, prediction))
            },
            Some(PendingView::Play(p)) => {
                &&& asked(p, mode) matches Ask::Nothing(card, via) ==> play_comes_off(
                    room.table,
                    p,
                    (card, via),
                )
                &&& play_comes_off(room.table, p, (ruled_card(p, decision), Via::Rules))
                &&& play_comes_off(room.table, p, chosen_card(p, reply, decision))
            },
            None => true,
        },
{
    match due(room, on_hold, now) {
        Some(PendingView::Bid(b)) => {
            let (call, via) = chosen_call(b.calls, prediction);
            let card = arbitrary();
            law_bot_turn_comes_off(room, on_hold, now, call, card, via);
            law_bot_turn_comes_off(room, on_hold, now, call, card, Via::Pass);
            law_bot_turn_comes_off(room, on_hold, now, call, card, Via::Random);
        },
        Some(PendingView::Play(p)) => {
            law_bot_draws_from_legal(room.table, p.seat, p.seq as usize);
            let (card, via) = chosen_card(p, reply, decision);
            let ruled = ruled_card(p, decision);
            law_bot_turn_comes_off(room, on_hold, now, Call::Pass, card, via);
            law_bot_turn_comes_off(room, on_hold, now, Call::Pass, ruled, Via::Rules);
            if let Ask::Nothing(card, via) = asked(p, mode) {
                law_bot_turn_comes_off(room, on_hold, now, Call::Pass, card, via);
            }
        },
        None => {},
    }
}

/// What the scripted card and the deterministic pick are drawn from.
pub proof fn law_bot_draws_from_legal(t: TableView, seat: Direction, seq: usize)
    ensures
        ({
            let p = due_play(t, seat);
            &&& p.scripted matches Some(card) ==> p.legal.contains(card)
            &&& p.legal.len() > 0 ==> p.legal.contains(
                p.legal[pick_index(seq, p.legal.len() as int)],
            )
        }),
{
    let p = due_play(t, seat);
    if p.legal.len() > 0 {
        assert(0 <= pick_index(seq, p.legal.len() as int) < p.legal.len());
    }
}

/// Humans are left alone: a bot never plays for a connected human, except that
/// it bids for everybody on a play-only board, and that declarer plays dummy's
/// cards.
pub proof fn law_humans_are_left_alone(room: RoomInnerView, on_hold: bool, now: u64)
    requires
        due(room, on_hold, now) is Some,
        !forces_bot(room.board_mode, room.table.folded().phase),
    ensures
        ({
            let f = room.table.folded();
            let seat = f.next_to_act->0;
            let who = answers_for(room, f.contract, seat, now);
            &&& !(room.seats.get(who) matches Some(o) && o.connected)
            &&& turn_pending(room, on_hold, now)
        }),
{
}

/// A connected human is at a seat.
pub open spec fn human_at(room: RoomInnerView, seat: Direction) -> bool {
    room.seats.get(seat) matches Some(o) && o.connected
}

/// No bot ever plays a card for a connected human: neither a defender's, nor
/// declarer's or dummy's while either of the two is a connected human.
pub proof fn law_humans_play_their_cards(room: RoomInnerView, on_hold: bool, now: u64)
    requires
        room.table.folded().phase == Phase::Play,
        due(room, on_hold, now) is Some,
    ensures
        room.table.folded().contract matches Some(c) && room.table.folded().next_to_act matches Some(
            seat,
        ) && if seat == c.declarer || seat == c.declarer.partner() {
            !human_at(room, c.declarer) && !human_at(room, c.declarer.partner())
        } else {
            !human_at(room, seat)
        },
{
}

/// How a board's mode and a hold gate the bots: on hold, after the end of a
/// board, and in the play of a board of which only the auction is played, there
/// is nothing for them to do; and in the auction of a board of which only the
/// play is played they bid, whoever sits at the table.
pub proof fn law_modes_gate_bots(room: RoomInnerView, on_hold: bool, now: u64)
    ensures
        on_hold ==> due(room, on_hold, now) is None && !turn_pending(room, on_hold, now),
        room.table.folded().phase == Phase::Complete ==> due(room, on_hold, now) is None
            && !turn_pending(room, on_hold, now),
        room.board_mode == BoardMode::BidOnly && room.table.folded().phase == Phase::Play ==> due(
            room,
            on_hold,
            now,
        ) is None && !turn_pending(room, on_hold, now),
        room.board_mode == BoardMode::PlayOnly && room.table.folded().phase == Phase::Bidding
            && !on_hold ==> due(room, on_hold, now) matches Some(PendingView::Bid(_)),
        room.board_mode != BoardMode::PlayOnly && room.table.folded().phase == Phase::Bidding ==> (
        due(room, on_hold, now) is Some <==> turn_pending(room, on_hold, now)),
{
    crate::table::law_someone_to_act(room.table.board.dealer, room.table.log);
}

/// With nobody at the table and no seat emptied on purpose, it is a bot's turn
/// whenever anybody is to act, bots not being on hold.
pub proof fn law_bots_fill_an_empty_table(room: RoomInnerView, now: u64)
    requires
        forall|d: Direction| (#[trigger] room.seats.get(d)) is None && !room.no_bot.has(d),
        room.board_mode == BoardMode::BidAndPlay,
    ensures
        turn_pending(room, false, now) <==> room.table.folded().next_to_act is Some,
        room.table.folded().phase == Phase::Bidding ==> due(room, false, now) is Some,
{
    crate::table::law_someone_to_act(room.table.board.dealer, room.table.log);
    assert forall|d: Direction| #[trigger] room.bot_controlled(d, true, now) by {
        assert(room.seats.get(d) is None);
    }
    assert(room.seats.get(Direction::North) is None && room.seats.get(Direction::East) is None
        && room.seats.get(Direction::South) is None && room.seats.get(Direction::West) is None);
}

/// A bid that is due is due at the seat on turn, on the board and the calls as
/// they are. It is a pass without asking exactly where the seat's side always
/// passes and a bot drives the seat: never for a connected human.
pub proof fn law_bid_due(room: RoomInnerView, on_hold: bool, now: u64)
    ensures
        due(room, on_hold, now) matches Some(PendingView::Bid(b)) ==> {
            let f = room.table.folded();
            &&& f.phase == Phase::Bidding && f.next_to_act == Some(b.seat)
            &&& b.seq == room.table.log.len() && b.board == room.table.board && b.calls == f.calls
            &&& b.pass ==> !human_at(room, b.seat) && (if b.seat.is_ns() {
                room.pass_sides.ns
            } else {
                room.pass_sides.ew
            })
            &&& room.seats.get(b.seat) is None && !room.no_bot.has(b.seat) ==> b.pass == (
            if b.seat.is_ns() {
                room.pass_sides.ns
            } else {
                room.pass_sides.ew
            })
        },
{
    reveal(crate::table::fold_of);
}

/// A play is planned with the cards of whoever decides: declarer for declarer's
/// and dummy's cards, else the seat itself. The hands are those that were dealt,
/// the auction and the play all that has happened.
pub proof fn law_play_due(t: TableView, seat: Direction)
    requires
        t.folded().contract is Some,
    ensures
        ({
            let p = due_play(t, seat);
            let c = t.folded().contract->0;
            &&& p.seat == seat && p.seq == t.log.len() && p.contract == c && p.declarer
                == c.declarer
            &&& p.decision_maker == (if seat == c.declarer.partner() {
                c.declarer
            } else {
                seat
            })
            &&& p.hand_pbn == hand_text(t.board.deal.hand(p.decision_maker))
            &&& p.dummy_pbn == hand_text(t.board.deal.hand(c.declarer.partner()))
            &&& p.dummy_cards == t.board.deal.hand(c.declarer.partner())
            &&& p.opening_lead <==> p.played_pairs.len() == 0
            &&& p.played_pairs == t.folded().played && p.calls == t.folded().calls
            &&& p.played.len() == 2 * p.played_pairs.len()
            &&& p.dealer == t.board.dealer && p.vul == t.board.vulnerable
            &&& forall|card: Card|
                #![trigger p.legal.contains(card)]
                p.legal.contains(card) ==> p.remaining.contains(card) && t.board.deal.hand(
                    seat,
                ).contains(card) && !p.played_pairs.contains((seat, card))
        }),
{
    let p = due_play(t, seat);
    if p.played_pairs.len() > 0 {
        ben::law_ben_plays(p.played_pairs, 0);
    }
    assert forall|card: Card|
        #![trigger p.legal.contains(card)]
        p.legal.contains(card) implies p.remaining.contains(card) && t.board.deal.hand(
        seat,
    ).contains(card) && !p.played_pairs.contains((seat, card)) by {
        play::law_follow_suit(p.remaining, lead_suit_of(t.folded().current_trick), card);
        crate::table::lemma_unplayed(t.board.deal.hand(seat), t.folded().played, seat, card);
    }
}

/// A recorded play scripts a card exactly if the card is legal and play is on
/// book with it.
pub proof fn law_script_keeps_to_the_book(
    line: DealView,
    played: Seq<(Direction, Card)>,
    seat: Direction,
    legal: Seq<Card>,
    card: Card,
)
    ensures
        scripted_card(Some(line), played, seat, legal) == Some(card) <==> legal.contains(card)
            && on_book(line, played.push((seat, card))),
        scripted_card(None, played, seat, legal) is None,
{
    let longer = played.push((seat, card));
    assert(longer.drop_last() =~= played);
    let n = plays_of(played, seat).len() as int;
    if on_book(line, longer) {
        assert forall|d: Direction| #[trigger] plays_of(played, d).is_prefix_of(line.hand(d)) by {
            assert(plays_of(longer, d).is_prefix_of(line.hand(d)));
            if d == seat {
                assert(plays_of(longer, d) == plays_of(played, d).push(card));
                assert(plays_of(played, d) =~= line.hand(d).subrange(0, n));
            }
        }
        assert(plays_of(longer, seat).is_prefix_of(line.hand(seat)));
        assert(plays_of(longer, seat)[n] == card);
        assert(line.hand(seat)[n] == card);
    }
    if scripted_card(Some(line), played, seat, legal) == Some(card) {
        assert forall|d: Direction| #[trigger] plays_of(longer, d).is_prefix_of(line.hand(d)) by {
            assert(plays_of(played, d).is_prefix_of(line.hand(d)));
            if d == seat {
                assert(plays_of(longer, d) =~= line.hand(d).subrange(0, n + 1));
            }
        }
    }
}

/// A prediction that begins with the calls made and goes on with a legal call
/// has that call served; with any other, or without one, a bot passes.
pub proof fn law_predictions_are_served(calls: Seq<Call>, predicted: Seq<Call>, call: Call)
    ensures
        calls.push(call).is_prefix_of(predicted) && auction::legal(calls, call) ==> chosen_call(
            calls,
            Some(predicted),
        ) == (call, Via::Bba) && cached_call(Some(predicted), calls) == Some(call),
        cached_call(Some(predicted), calls) == Some(call) ==> calls.push(call).is_prefix_of(
            predicted,
        ) && auction::legal(calls, call),
        !calls.is_prefix_of(predicted) ==> chosen_call(calls, Some(predicted)) == (
            Call::Pass,
            Via::Fallback,
        ),
        chosen_call(calls, None) == (Call::Pass, Via::Fallback),
{
    let n = calls.len() as int;
    if calls.push(call).is_prefix_of(predicted) {
        assert(calls.push(call)[n] == call);
        assert(predicted[n] == call);
        assert(calls =~= predicted.subrange(0, n));
    }
    if cached_call(Some(predicted), calls) == Some(call) {
        assert(calls.push(call) =~= predicted.subrange(0, n + 1));
    }
}

/// BEN's card is played exactly if it is legal and BEN names no player, the seat
/// that is to play or the one that decides; with any other answer, or none, the
/// rule-based card is.
pub proof fn law_bens_cards_are_played(
    p: PlayPendingView,
    card: Card,
    player: Option<u64>,
    decision: Option<Card>,
)
    ensures
        chosen_card(p, Some((card, player)), decision).1 == Via::Ben <==> p.legal.contains(card) && (
        player matches Some(places) ==> p.declarer.next().plus(places as int) == p.seat
            || p.declarer.next().plus(places as int) == p.decision_maker),
        chosen_card(p, Some((card, player)), decision).1 == Via::Ben ==> chosen_card(
            p,
            Some((card, player)),
            decision,
        ).0 == card,
        chosen_card(p, Some((card, player)), decision).1 != Via::Ben ==> chosen_card(
            p,
            Some((card, player)),
            decision,
        ) == chosen_card(p, None, decision),
        decision matches Some(ruled) ==> chosen_card(p, None, decision) == (ruled, Via::Rules),
        chosen_card(p, None, None) == (
            p.legal[pick_index(p.seq as usize, p.legal.len() as int)],
            Via::Rules,
        ),
{
    if let Some(places) = player {
        crate::cards::law_plus_adds(p.declarer, 1, places as int);
    }
}

/// What BEN is asked with: the deciding seat's cards and letter, and who is
/// vulnerable as that seat sees it.
pub proof fn law_ben_is_asked(p: PlayPendingView)
    requires
        p.opening_lead ==> p.decision_maker == p.seat,
    ensures
        ({
            let q = ben_asked(p);
            let n: int = if p.opening_lead {
                0
            } else {
                1
            };
            &&& q.len() == (if p.opening_lead {
                5int
            } else {
                7int
            })
            &&& q[0] == ("hand"@, p.hand_pbn)
            &&& !p.opening_lead ==> q[1] == ("dummy"@, p.dummy_pbn) && q[6] == ("played"@, p.played)
            &&& q[n + 1] == ("seat"@, seq![p.decision_maker.to_char()])
            &&& q[n + 2] == ("dealer"@, seq![p.dealer.to_char()])
            &&& q[n + 3].0 == "vul"@
            &&& q[n + 3].1.contains('v') <==> p.vul.is_vulnerable(p.decision_maker)
            &&& q[n + 3].1.contains('V') <==> p.vul.is_vulnerable(p.decision_maker.next())
            &&& q[n + 4] == ("ctx"@, p.ctx)
            &&& ben_path(p) == (if p.opening_lead {
                "/lead"@
            } else {
                "/play"@
            })
        }),
{
    ben::law_ben_vulnerability(p.vul, p.decision_maker);
}

/// Two boards are the same exactly if nothing but a recorded play tells them
/// apart.
pub proof fn law_same_board(a: BoardView, b: BoardView)
    ensures
        same_board(a, b) <==> a == (BoardView { play_line: a.play_line, ..b }),
{
}

/// A bot pauses after its action exactly if the action was the fourth card of a
/// trick.
pub proof fn law_bots_pause_after_a_trick(t: TableView, seq: usize, action: Action, via: Via)
    requires
        t.wf(),
        t.log.len() < usize::MAX,
    ensures
        turn_end(t, seq, action, via) matches TurnEnd::Done { trick_pause } ==> (trick_pause
            <==> action is Play && t.then_do(action).folded().played.len() % 4 == 0),
        turn_end(t, seq, action, via) is Done <==> t.log.len() == seq && t.refusal(action) is None,
        turn_end(t, seq, action, via) is Stale <==> t.log.len() != seq,
        turn_end(t, seq, action, via).goes_on() <==> !(turn_end(t, seq, action, via) is Rejected),
{
    if t.refusal(action) is None {
        if let Action::Play { seat, card } = action {
            crate::actions::law_card_is_told(t, seat, card, Some(via));
        }
    }
}

/// What the backends are asked goes by the room's mode: the recorded play is
/// followed in every mode; BEN is asked in none but the real one; at random
/// nothing is asked.
pub proof fn law_asked(p: PlayPendingView, b: BidPendingView, mode: BotMode)
    ensures
        p.scripted matches Some(card) ==> asked(p, mode) == Ask::Nothing(card, Via::Line),
        asked(p, mode) is Ben <==> p.scripted is None && mode == BotMode::Real,
        asked(p, mode) is Rules <==> p.scripted is None && (mode == BotMode::Rules || mode
            == BotMode::Slow),
        p.scripted is None && mode == BotMode::Random ==> asked(p, mode) == Ask::Nothing(
            p.legal[pick_index(p.seq as usize, p.legal.len() as int)],
            Via::Random,
        ),
        ready(b, mode) is None <==> !b.pass && mode != BotMode::Random,
        ready(b, mode) matches Some((call, via)) ==> call == Call::Pass && (via == Via::Pass
            <==> b.pass) && (via == Via::Random <==> !b.pass),
{
}

/// Bots wait until there are boards to play and nobody has paused them.
pub proof fn law_bots_held(s: SessionView)
    ensures
        !s.bots_held() <==> s.boards.len() > 0 && !s.bots_paused,
{
}

/// A bot's action ends the log of its table exactly if the table has not moved on
/// and takes it; the other tables do not change. The table is told what was done
/// and by what kind of bot, and the lobby last. Otherwise nothing happens.
pub proof fn law_bot_acts(
    s: SessionView,
    i: int,
    seq: usize,
    action: Action,
    via: Via,
    opening_lead: bool,
    j: int,
)
    requires
        0 <= i < s.rooms.len() <= usize::MAX,
        0 <= j < s.rooms.len(),
    ensures
        ({
            let after = s.bot_acted(i, seq, action, via, opening_lead);
            let t = s.rooms[i].state.table;
            let acted = t.log.len() == seq && t.refusal(action) is None;
            &&& acted ==> after.rooms[i].state.table.log == t.log.push(action)
                && after.rooms[i].state.seats == s.rooms[i].state.seats
            &&& acted ==> after.outbox[s.outbox.len() as int] == (Notice::Event {
                table: i as usize,
                event: action_event(after.rooms[i].state.table, action, Some(via)),
            }) && after.outbox.last() == Notice::Lobby
            &&& j != i ==> after.rooms[j] == s.rooms[j]
            &&& !acted ==> after == s
        }),
{
    let t = s.rooms[i].state.table;
    law_told(t.then_do(action), i as usize, action, Some(via), opening_lead, true);
}

} // verus!
