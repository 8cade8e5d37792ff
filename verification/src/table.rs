//! Event-sourced table state.
//!
//! A table's authoritative state is its board plus an append-only log of
//! actions. Every view (auction, current trick, remaining hands, whose turn)
//! is computed by folding the log; **undo is truncate-and-refold** — no
//! incremental state can drift, and bot context always derives from the folded
//! state. Sequence numbers are simply indices into the log.

use vstd::prelude::*;
use vstd::string::*;

use crate::cards::{Call, Card, Deal, DealView, Direction, Strain, Suit, Vulnerability};
use crate::engine::auction;
use crate::engine::auction::ContractOutcome;
use crate::engine::play;

verus! {

/// One action in a table's log. Seats are recorded so a fold never has to
/// re-derive who acted, and so the log is self-describing for later replay.
#[derive(Clone, Copy, Debug, PartialEq, Eq, Structural)]
pub enum Action {
    Call { seat: Direction, call: Call },
    Play { seat: Direction, card: Card },
}

/// One trick of a recorded play: who led, and what was played by whom, the
/// leader first. A trick may be recorded in part.
#[derive(Clone, Copy, Debug)]
pub struct PlayTrick {
    pub leader: Direction,
    pub cards: [Option<Card>; 4],
}

impl PlayTrick {
    /// The card that a seat is recorded to have played to this trick.
    pub open spec fn card_of(self, seat: Direction) -> Option<Card> {
        self.cards@[(seat.index() - self.leader.index()) % 4]
    }
}

/// A recorded play: its tricks, in order.
#[derive(Debug)]
pub struct PlaySequence {
    pub tricks: Vec<PlayTrick>,
}

/// What a recorded play scripts for a seat, in order.
pub open spec fn scripted(tricks: Seq<PlayTrick>, seat: Direction) -> Seq<Card>
    decreases tricks.len(),
{
    if tricks.len() == 0 {
        seq![]
    } else {
        let before = scripted(tricks.drop_last(), seat);
        match tricks.last().card_of(seat) {
            Some(card) => before.push(card),
            None => before,
        }
    }
}

/// A deal source's recorded play, flattened into per-seat queues (the cards
/// each seat is scripted to play, in order). The cardplay-first bot follows it
/// while the actual play still matches, then hands off to the room's bot.
#[derive(Debug)]
pub struct PlayLine {
    by_seat: Deal,
}

impl View for PlayLine {
    type V = DealView;

    closed spec fn view(&self) -> DealView {
        self.by_seat@
    }
}

/// The cards that one seat has played, in order.
pub open spec fn plays_of(played: Seq<(Direction, Card)>, seat: Direction) -> Seq<Card>
    decreases played.len(),
{
    if played.len() == 0 {
        seq![]
    } else {
        let before = plays_of(played.drop_last(), seat);
        if played.last().0 == seat {
            before.push(played.last().1)
        } else {
            before
        }
    }
}

/// Play is on book: what each seat has played is the start of what it is
/// scripted to play.
pub open spec fn on_book(line: DealView, played: Seq<(Direction, Card)>) -> bool {
    forall|seat: Direction| #[trigger] plays_of(played, seat).is_prefix_of(line.hand(seat))
}

/// What a seat has played by some moment is the start of what it has played later.
proof fn lemma_plays_grow(played: Seq<(Direction, Card)>, n: int, seat: Direction)
    requires
        0 <= n <= played.len(),
    ensures
        plays_of(played.subrange(0, n), seat).is_prefix_of(plays_of(played, seat)),
    decreases played.len() - n,
{
    if n == played.len() {
        assert(played.subrange(0, n) =~= played);
    } else {
        lemma_plays_grow(played, n + 1, seat);
        assert(played.subrange(0, n + 1).drop_last() =~= played.subrange(0, n));
    }
}

impl PlayLine {
    /// Flatten a recorded play into per-seat queues, or `None` when the board
    /// carries no line (the common case — random deals).
    pub fn from_sequence(play: Option<&PlaySequence>) -> (r: Option<PlayLine>)
        ensures
            r is Some <==> play is Some && exists|d: Direction| #[trigger]
                scripted(play->0.tricks@, d) != Seq::<Card>::empty(),
            r matches Some(line) ==> forall|d: Direction| #[trigger]
                line@.hand(d) == scripted(play->0.tricks@, d),
    {
        let recorded = match play {
            None => {
                return None;
            },
            Some(recorded) => recorded,
        };
        let mut by_seat = Deal::empty();
        let mut k: usize = 0;
        while k < recorded.tricks.len()
            invariant
                k <= recorded.tricks.len(),
                forall|d: Direction| #[trigger]
                    by_seat@.hand(d) == scripted(recorded.tricks@.subrange(0, k as int), d),
            decreases recorded.tricks.len() - k,
        {
            let trick = recorded.tricks[k];
            let ghost before = recorded.tricks@.subrange(0, k as int);
            let ghost after = recorded.tricks@.subrange(0, k + 1);
            assert(after.drop_last() =~= before);
            assert(after.last() == trick);
            let mut pos: usize = 0;
            while pos < 4
                invariant
                    pos <= 4,
                    after.len() > 0,
                    after.drop_last() == before,
                    after.last() == trick,
                    forall|d: Direction| #[trigger]
                        by_seat@.hand(d) == (if (d.index() - trick.leader.index()) % 4 < pos {
                            scripted(after, d)
                        } else {
                            scripted(before, d)
                        }),
                decreases 4 - pos,
            {
                let seat = trick.leader.rotate(pos as u8);
                assert forall|d: Direction| #![trigger d.index()] (d.index() - trick.leader.index()) % 4 == pos <==> d
                    == seat by {}
                if let Some(card) = trick.cards[pos] {
                    by_seat.push(seat, card);
                }
                pos = pos + 1;
            }
            k = k + 1;
        }
        assert(recorded.tricks@.subrange(0, k as int) =~= recorded.tricks@);
        proof {
            let tricks = recorded.tricks@;
            assert(by_seat@.north == scripted(tricks, Direction::North)) by {
                assert(by_seat@.hand(Direction::North) == by_seat@.north);
            }
            assert(by_seat@.east == scripted(tricks, Direction::East)) by {
                assert(by_seat@.hand(Direction::East) == by_seat@.east);
            }
            assert(by_seat@.south == scripted(tricks, Direction::South)) by {
                assert(by_seat@.hand(Direction::South) == by_seat@.south);
            }
            assert(by_seat@.west == scripted(tricks, Direction::West)) by {
                assert(by_seat@.hand(Direction::West) == by_seat@.west);
            }
        }
        if by_seat.north.len() == 0 && by_seat.east.len() == 0 && by_seat.south.len() == 0
            && by_seat.west.len() == 0 {
            assert forall|d: Direction| #[trigger]
                scripted(recorded.tricks@, d) == Seq::<Card>::empty() by {
                assert(by_seat@.hand(d).len() == 0);
            }
            return None;
        }
        let line = PlayLine { by_seat };
        Some(line)
    }

    /// The card `seat` is scripted to play on its `i`-th turn, if the line
    /// records one.
    pub fn card_for(&self, seat: Direction, i: usize) -> (r: Option<Card>)
        ensures
            r == (if i < self@.hand(seat).len() {
                Some(self@.hand(seat)[i as int])
            } else {
                None
            }),
    {
        let queue = self.by_seat.hand(seat);
        if i < queue.len() {
            Some(queue[i])
        } else {
            None
        }
    }

    /// Whether the actual play has departed from the recorded line — a seat
    /// played a card the line didn't script at that position (a deviation), or
    /// played past the end of its recorded queue (the line ran out). Recomputed
    /// from the full history each call, so it is undo-safe: a rewind past the
    /// divergence puts play back on-book. `played` is the chronological
    /// all-seats history.
    pub fn diverged(&self, played: &[(Direction, Card)]) -> (r: bool)
        ensures
            r == !on_book(self@, played@),
    {
        let mut counts: [usize; 4] = [0, 0, 0, 0];
        let mut k: usize = 0;
        while k < played.len()
            invariant
                k <= played.len(),
                on_book(self@, played@.subrange(0, k as int)),
                forall|d: Direction| #![trigger d.index()]
                    counts@[d.index()] == plays_of(played@.subrange(0, k as int), d).len(),
            decreases played.len() - k,
        {
            let (seat, card) = played[k];
            let idx: usize = seat.to_index();
            let ghost before = played@.subrange(0, k as int);
            let ghost after = played@.subrange(0, k + 1);
            proof {
                assert(after.drop_last() =~= before);
                assert(after.last() == (seat, card));
                assert(counts@[seat.index()] == plays_of(before, seat).len());
                assert(plays_of(before, seat).is_prefix_of(self@.hand(seat)));
            }
            let queue = self.by_seat.hand(seat);
            if counts[idx] >= queue.len() || queue[counts[idx]] != card {
                proof {
                    lemma_plays_grow(played@, k + 1, seat);
                    let shown = plays_of(after, seat);
                    assert(shown == plays_of(before, seat).push(card));
                    if on_book(self@, played@) {
                        assert(plays_of(played@, seat).is_prefix_of(self@.hand(seat)));
                        let p = plays_of(before, seat).len() as int;
                        assert(shown[p] == card);
                        assert(plays_of(played@, seat)[p] == card);
                        assert(self@.hand(seat)[p] == card);
                    }
                }
                return true;
            }
            proof {
                assert forall|d: Direction| #[trigger]
                    plays_of(after, d).is_prefix_of(self@.hand(d)) by {
                    assert(plays_of(before, d).is_prefix_of(self@.hand(d)));
                    if d == seat {
                        let p = plays_of(before, seat).len() as int;
                        assert(plays_of(after, seat) =~= self@.hand(seat).subrange(0, p + 1));
                    }
                }
            }
            counts[idx] = counts[idx] + 1;
            k = k + 1;
        }
        assert(played@.subrange(0, k as int) =~= played@);
        false
    }

    pub fn copy(&self) -> (r: PlayLine)
        ensures
            r@ == self@,
    {
        PlayLine { by_seat: self.by_seat.copy() }
    }
}

/// A rewind puts play back on book: what was on book at some moment was on book
/// at every moment before it.
pub proof fn law_rewind_is_on_book(line: DealView, played: Seq<(Direction, Card)>, n: int)
    requires
        on_book(line, played),
        0 <= n <= played.len(),
    ensures
        on_book(line, played.subrange(0, n)),
{
    assert forall|seat: Direction| #[trigger]
        plays_of(played.subrange(0, n), seat).is_prefix_of(line.hand(seat)) by {
        lemma_plays_grow(played, n, seat);
        assert(plays_of(played, seat).is_prefix_of(line.hand(seat)));
    }
}

/// The board being played (deal + context), fixed for the lifetime of the log.
#[derive(Debug)]
pub struct BoardSetup {
    pub number: u32,
    pub dealer: Direction,
    pub vulnerable: Vulnerability,
    pub deal: Deal,
    /// The recorded play, when the deal source shipped one (declarer-play
    /// coaching boards). Drives the cardplay-first bot; `None` for random
    /// deals and after a seat rotation (the line's seats no longer match).
    pub play_line: Option<PlayLine>,
}

/// What a board is.
#[verifier::ext_equal]
pub ghost struct BoardView {
    pub number: u32,
    pub dealer: Direction,
    pub vulnerable: Vulnerability,
    pub deal: DealView,
    pub play_line: Option<DealView>,
}

impl View for BoardSetup {
    type V = BoardView;

    open spec fn view(&self) -> BoardView {
        BoardView {
            number: self.number,
            dealer: self.dealer,
            vulnerable: self.vulnerable,
            deal: self.deal@,
            play_line: match self.play_line {
                Some(line) => Some(line@),
                None => None,
            },
        }
    }
}

impl BoardSetup {
    pub fn copy(&self) -> (r: BoardSetup)
        ensures
            r@ == self@,
    {
        BoardSetup {
            number: self.number,
            dealer: self.dealer,
            vulnerable: self.vulnerable,
            deal: self.deal.copy(),
            play_line: match &self.play_line {
                Some(line) => Some(line.copy()),
                None => None,
            },
        }
    }
}

/// Where a board stands.
#[derive(Clone, Copy, Debug, PartialEq, Eq, Structural)]
pub enum Phase {
    Bidding,
    Play,
    Complete,
}

/// Everything derived from folding the log. Cheap to recompute (≤ ~90 actions).
#[derive(Debug)]
pub struct Folded {
    pub phase: Phase,
    pub calls: Vec<Call>,
    pub contract: Option<ContractOutcome>,
    /// Chronological plays across all tricks.
    pub played: Vec<(Direction, Card)>,
    /// Completed tricks: (leader, four cards, winner).
    pub completed_tricks: Vec<(Direction, [Card; 4], Direction)>,
    /// Current (incomplete) trick: leader + plays so far.
    pub current_trick: Option<(Direction, Vec<(Direction, Card)>)>,
    pub tricks_ns: u8,
    pub tricks_ew: u8,
    /// Seat to act next (bid or play). None once complete / passed out.
    pub next_to_act: Option<Direction>,
    /// True once the opening lead has been made (dummy goes face up).
    pub opening_lead_made: bool,
}

/// What a fold says.
#[verifier::ext_equal]
pub ghost struct FoldedView {
    pub phase: Phase,
    pub calls: Seq<Call>,
    pub contract: Option<ContractOutcome>,
    pub played: Seq<(Direction, Card)>,
    pub completed_tricks: Seq<(Direction, Seq<Card>, Direction)>,
    pub current_trick: Option<(Direction, Seq<(Direction, Card)>)>,
    pub tricks_ns: nat,
    pub tricks_ew: nat,
    pub next_to_act: Option<Direction>,
    pub opening_lead_made: bool,
}

/// A current trick, seen as its leader and its plays.
pub open spec fn trick_view(trick: Option<(Direction, Vec<(Direction, Card)>)>) -> Option<
    (Direction, Seq<(Direction, Card)>),
> {
    match trick {
        Some((leader, plays)) => Some((leader, plays@)),
        None => None,
    }
}

impl View for Folded {
    type V = FoldedView;

    open spec fn view(&self) -> FoldedView {
        FoldedView {
            phase: self.phase,
            calls: self.calls@,
            contract: self.contract,
            played: self.played@,
            completed_tricks: Seq::new(
                self.completed_tricks@.len(),
                |k: int|
                    (
                        self.completed_tricks@[k].0,
                        self.completed_tricks@[k].1@,
                        self.completed_tricks@[k].2,
                    ),
            ),
            current_trick: trick_view(self.current_trick),
            tricks_ns: self.tricks_ns as nat,
            tricks_ew: self.tricks_ew as nat,
            next_to_act: self.next_to_act,
            opening_lead_made: self.opening_lead_made,
        }
    }
}

/// The calls in a log.
pub open spec fn calls_of(log: Seq<Action>) -> Seq<Call>
    decreases log.len(),
{
    if log.len() == 0 {
        seq![]
    } else {
        let before = calls_of(log.drop_last());
        match log.last() {
            Action::Call { call, .. } => before.push(call),
            Action::Play { .. } => before,
        }
    }
}

/// The plays in a log.
pub open spec fn played_of(log: Seq<Action>) -> Seq<(Direction, Card)>
    decreases log.len(),
{
    if log.len() == 0 {
        seq![]
    } else {
        let before = played_of(log.drop_last());
        match log.last() {
            Action::Call { .. } => before,
            Action::Play { seat, card } => before.push((seat, card)),
        }
    }
}

/// The four cards of trick `k`.
pub open spec fn trick_cards(played: Seq<(Direction, Card)>, k: int) -> Seq<Card> {
    Seq::new(4, |i: int| played[4 * k + i].1)
}

/// The leader of trick `k`: the opening leader, and then whoever won the
/// trick before.
pub open spec fn leader_at(
    first: Direction,
    played: Seq<(Direction, Card)>,
    trump: Option<Suit>,
    k: int,
) -> Direction
    decreases k,
{
    if k <= 0 {
        first
    } else {
        play::winner_of(
            leader_at(first, played, trump, k - 1),
            trick_cards(played, k - 1),
            trump,
        )
    }
}

/// How many of the first `n` tricks a pair has won.
pub open spec fn tricks_won(
    first: Direction,
    played: Seq<(Direction, Card)>,
    trump: Option<Suit>,
    n: int,
    ns: bool,
) -> nat
    decreases n,
{
    if n <= 0 {
        0
    } else {
        tricks_won(first, played, trump, n - 1, ns) + (if leader_at(first, played, trump, n).is_ns()
            == ns {
            1nat
        } else {
            0nat
        })
    }
}

/// A pair wins at most as many tricks early on as it does in all; every trick
/// is won by one pair.
pub proof fn lemma_tricks_won(
    first: Direction,
    played: Seq<(Direction, Card)>,
    trump: Option<Suit>,
    m: int,
    n: int,
)
    requires
        0 <= m <= n,
    ensures
        tricks_won(first, played, trump, m, true) <= tricks_won(first, played, trump, n, true),
        tricks_won(first, played, trump, m, false) <= tricks_won(first, played, trump, n, false),
        tricks_won(first, played, trump, n, true) + tricks_won(first, played, trump, n, false) == n,
    decreases n,
{
    if n > 0 {
        if m < n {
            lemma_tricks_won(first, played, trump, m, n - 1);
        } else {
            lemma_tricks_won(first, played, trump, m - 1, n - 1);
        }
    }
}

/// The state that a log folds into.
#[verifier::opaque]
pub open spec fn fold_of(dealer: Direction, log: Seq<Action>) -> FoldedView {
    let calls = calls_of(log);
    let played = played_of(log);
    let idle = FoldedView {
        phase: Phase::Bidding,
        calls,
        contract: None,
        played,
        completed_tricks: seq![],
        current_trick: None,
        tricks_ns: 0,
        tricks_ew: 0,
        next_to_act: None,
        opening_lead_made: false,
    };
    if !auction::complete(calls) {
        FoldedView { next_to_act: Some(dealer.plus(calls.len() as int)), ..idle }
    } else {
        match auction::contract_of(dealer, calls) {
            None => FoldedView { phase: Phase::Complete, ..idle },
            Some(contract) => {
                let trump = play::trump_of(contract.strain);
                let first = contract.leader();
                let n = played.len() as int / 4;
                let trick = played.subrange(4 * n, played.len() as int);
                let leader = leader_at(first, played, trump, n);
                let done = n == 13;
                FoldedView {
                    phase: if done {
                        Phase::Complete
                    } else {
                        Phase::Play
                    },
                    contract: Some(contract),
                    completed_tricks: Seq::new(
                        n as nat,
                        |k: int|
                            (
                                leader_at(first, played, trump, k),
                                trick_cards(played, k),
                                leader_at(first, played, trump, k + 1),
                            ),
                    ),
                    current_trick: if trick.len() == 0 && done {
                        None
                    } else {
                        Some((leader, trick))
                    },
                    tricks_ns: tricks_won(first, played, trump, n, true),
                    tricks_ew: tricks_won(first, played, trump, n, false),
                    next_to_act: if done {
                        None
                    } else if trick.len() > 0 {
                        Some(trick.last().0.next())
                    } else {
                        Some(leader)
                    },
                    opening_lead_made: played.len() > 0,
                    ..idle
                }
            },
        }
    }
}

/// The cards of a hand that the seat has not played, in hand order.
pub open spec fn unplayed(
    hand: Seq<Card>,
    played: Seq<(Direction, Card)>,
    seat: Direction,
) -> Seq<Card>
    decreases hand.len(),
{
    if hand.len() == 0 {
        seq![]
    } else {
        let before = unplayed(hand.drop_last(), played, seat);
        if played.contains((seat, hand.last())) {
            before
        } else {
            before.push(hand.last())
        }
    }
}

/// The suit led to a current trick.
pub open spec fn lead_suit_of(trick: Option<(Direction, Seq<(Direction, Card)>)>) -> Option<Suit> {
    match trick {
        Some((_, plays)) => if plays.len() > 0 {
            Some(plays[0].1.suit)
        } else {
            None
        },
        None => None,
    }
}

/// Why an action is refused.
#[derive(Clone, Copy, Debug, PartialEq, Eq, Structural)]
pub enum ActionError {
    AuctionOver,
    NotTurnToCall(Direction),
    IllegalCall(Call),
    NotInPlay,
    NotTurnToPlay(Direction),
    IllegalCard(Card),
    UndoForward,
}

impl ActionError {
    /// The words for an error; `call_text` is the text of the refused call.
    pub open spec fn words(self, call_text: Seq<char>) -> Seq<char> {
        match self {
            ActionError::AuctionOver => "auction is over"@,
            ActionError::NotTurnToCall(seat) => "not "@ + seat.spec_name() + "'s turn to call"@,
            ActionError::IllegalCall(_) => "illegal call "@ + call_text,
            ActionError::NotInPlay => "not in the play phase"@,
            ActionError::NotTurnToPlay(seat) => "not "@ + seat.spec_name() + "'s turn to play"@,
            ActionError::IllegalCard(card) => "illegal card "@ + card.code(),
            ActionError::UndoForward => "cannot undo forward"@,
        }
    }

    /// Tells a player why an action was refused.
    pub fn message(&self, call_text: &str) -> (r: String)
        ensures
            r@ == self.words(call_text@),
    {
        match self {
            ActionError::AuctionOver => "auction is over".to_owned(),
            ActionError::NotTurnToCall(seat) => {
                let mut s = "not ".to_owned();
                s.append(seat.name());
                s.append("'s turn to call");
                s
            },
            ActionError::IllegalCall(_) => {
                let mut s = "illegal call ".to_owned();
                s.append(call_text);
                s
            },
            ActionError::NotInPlay => "not in the play phase".to_owned(),
            ActionError::NotTurnToPlay(seat) => {
                let mut s = "not ".to_owned();
                s.append(seat.name());
                s.append("'s turn to play");
                s
            },
            ActionError::IllegalCard(card) => {
                let mut s = "illegal card ".to_owned();
                s.append(card.to_code().as_str());
                s
            },
            ActionError::UndoForward => "cannot undo forward".to_owned(),
        }
    }
}

/// Why an action may not follow a log, if it may not.
pub open spec fn rejection(board: BoardView, log: Seq<Action>, action: Action) -> Option<
    ActionError,
> {
    let f = fold_of(board.dealer, log);
    match action {
        Action::Call { seat, call } => if f.phase != Phase::Bidding {
            Some(ActionError::AuctionOver)
        } else if f.next_to_act != Some(seat) {
            Some(ActionError::NotTurnToCall(seat))
        } else if !auction::legal(f.calls, call) {
            Some(ActionError::IllegalCall(call))
        } else {
            None
        },
        Action::Play { seat, card } => if f.phase != Phase::Play {
            Some(ActionError::NotInPlay)
        } else if f.next_to_act != Some(seat) {
            Some(ActionError::NotTurnToPlay(seat))
        } else if !play::playable(
            unplayed(board.deal.hand(seat), f.played, seat),
            lead_suit_of(f.current_trick),
        ).contains(card) {
            Some(ActionError::IllegalCard(card))
        } else {
            None
        },
    }
}

/// A log in which every action was legal when it was made.
pub open spec fn legal_log(board: BoardView, log: Seq<Action>) -> bool {
    forall|i: int|
        0 <= i < log.len() ==> rejection(board, log.subrange(0, i), #[trigger] log[i]) is None
}

/// A board and the log of what has happened on it.
#[derive(Debug)]
pub struct TableState {
    pub board: BoardSetup,
    pub actions: Vec<Action>,
}

/// What a table is.
#[verifier::ext_equal]
pub ghost struct TableView {
    pub board: BoardView,
    pub log: Seq<Action>,
}

impl TableView {
    /// A table on which nothing has happened yet.
    pub open spec fn fresh(board: BoardView) -> TableView {
        TableView { board, log: seq![] }
    }

    /// Every action in the log was legal when it was made.
    pub open spec fn wf(self) -> bool {
        legal_log(self.board, self.log)
    }

    /// The state that the log folds into.
    pub open spec fn folded(self) -> FoldedView {
        fold_of(self.board.dealer, self.log)
    }

    /// Why the table refuses an action, if it does.
    pub open spec fn refusal(self, action: Action) -> Option<ActionError> {
        rejection(self.board, self.log, action)
    }

    /// The table after one more action.
    pub open spec fn then_do(self, action: Action) -> TableView {
        TableView { log: self.log.push(action), ..self }
    }

    /// The table as it was after its first `n` actions.
    pub open spec fn rewound(self, n: int) -> TableView {
        TableView { log: self.log.subrange(0, n), ..self }
    }

    /// The result, once the board is complete.
    pub open spec fn result(self) -> Option<BoardResult> {
        result_of(self.board.number, self.folded())
    }
}

impl View for TableState {
    type V = TableView;

    open spec fn view(&self) -> TableView {
        TableView { board: self.board@, log: self.actions@ }
    }
}

impl TableState {
    /// The fold's trick counters suffice for this log.
    pub open spec fn foldable(&self) -> bool {
        let f = fold_of(self.board.dealer, self.actions@);
        f.tricks_ns <= u8::MAX && f.tricks_ew <= u8::MAX
    }

    /// Every action in the log was legal when it was made.
    pub open spec fn wf(&self) -> bool {
        legal_log(self.board@, self.actions@)
    }

    /// The state that the log folds into.
    pub open spec fn folded(&self) -> FoldedView {
        fold_of(self.board.dealer, self.actions@)
    }

    pub fn new(board: BoardSetup) -> (r: TableState)
        ensures
            r.board == board,
            r.actions@ == Seq::<Action>::empty(),
            r.wf(),
    {
        TableState { board, actions: Vec::new() }
    }

    /// Current sequence number = number of applied actions.
    pub fn seq(&self) -> (r: usize)
        ensures
            r == self.actions@.len(),
    {
        self.actions.len()
    }

    /// Fold the action log into the current derived state.
    pub fn fold(&self) -> (r: Folded)
        requires
            self.foldable(),
        ensures
            r@ == self.folded(),
    {
        proof {
            reveal(fold_of);
        }
        let mut calls: Vec<Call> = Vec::new();
        let mut played: Vec<(Direction, Card)> = Vec::new();
        let mut i: usize = 0;
        while i < self.actions.len()
            invariant
                i <= self.actions.len(),
                calls@ == calls_of(self.actions@.subrange(0, i as int)),
                played@ == played_of(self.actions@.subrange(0, i as int)),
            decreases self.actions.len() - i,
        {
            proof {
                let longer = self.actions@.subrange(0, i + 1);
                assert(longer.drop_last() =~= self.actions@.subrange(0, i as int));
                assert(longer.last() == self.actions@[i as int]);
            }
            match self.actions[i] {
                Action::Call { call, .. } => calls.push(call),
                Action::Play { seat, card } => played.push((seat, card)),
            }
            i = i + 1;
        }
        assert(self.actions@.subrange(0, i as int) =~= self.actions@);

        let auction_done = auction::is_complete(calls.as_slice());
        let contract = auction::contract(self.board.dealer, calls.as_slice());

        if !auction_done {
            let r = Folded {
                phase: Phase::Bidding,
                next_to_act: Some(auction::next_caller(self.board.dealer, calls.as_slice())),
                calls,
                contract: None,
                played,
                completed_tricks: Vec::new(),
                current_trick: None,
                tricks_ns: 0,
                tricks_ew: 0,
                opening_lead_made: false,
            };
            assert(r@ =~= self.folded());
            return r;
        }
        let contract = match contract {
            Some(contract) => contract,
            None => {
                // Passed out: complete with no play.
                let r = Folded {
                    phase: Phase::Complete,
                    next_to_act: None,
                    calls,
                    contract: None,
                    played,
                    completed_tricks: Vec::new(),
                    current_trick: None,
                    tricks_ns: 0,
                    tricks_ew: 0,
                    opening_lead_made: false,
                };
                assert(r@ =~= self.folded());
                return r;
            },
        };

        let trump = play::trump_of(contract.strain);
        let first = contract.opening_leader();
        let mut completed: Vec<(Direction, [Card; 4], Direction)> = Vec::new();
        let mut leader = first;
        let mut trick: Vec<(Direction, Card)> = Vec::new();
        let mut tricks_ns: u8 = 0;
        let mut tricks_ew: u8 = 0;
        let ghost all: int = played@.len() as int / 4;
        let mut i: usize = 0;
        while i < played.len()
            invariant
                i <= played.len(),
                all == played@.len() as int / 4,
                tricks_won(first, played@, trump, all, true) <= u8::MAX,
                tricks_won(first, played@, trump, all, false) <= u8::MAX,
                completed@.len() == i as int / 4,
                trick@ == played@.subrange(4 * (i as int / 4), i as int),
                leader == leader_at(first, played@, trump, i as int / 4),
                tricks_ns == tricks_won(first, played@, trump, i as int / 4, true),
                tricks_ew == tricks_won(first, played@, trump, i as int / 4, false),
                forall|k: int|
                    #![trigger completed@[k]]
                    0 <= k < completed@.len() ==> {
                        &&& completed@[k].0 == leader_at(first, played@, trump, k)
                        &&& completed@[k].1@ == trick_cards(played@, k)
                        &&& completed@[k].2 == leader_at(first, played@, trump, k + 1)
                    },
            decreases played.len() - i,
        {
            let ghost n = i as int / 4;
            trick.push(played[i]);
            assert(trick@ =~= played@.subrange(4 * n, i + 1));
            if trick.len() == 4 {
                assert(i + 1 == 4 * (n + 1));
                assert((i + 1) as int / 4 == n + 1);
                let cards: [Card; 4] = [trick[0].1, trick[1].1, trick[2].1, trick[3].1];
                assert(cards@ =~= trick_cards(played@, n));
                let winner = play::trick_winner(leader, &cards, trump);
                proof {
                    assert(winner == leader_at(first, played@, trump, n + 1));
                    lemma_tricks_won(first, played@, trump, n + 1, all);
                }
                if winner.north_south() {
                    tricks_ns = tricks_ns + 1;
                } else {
                    tricks_ew = tricks_ew + 1;
                }
                completed.push((leader, cards, winner));
                leader = winner;
                trick.clear();
                assert(trick@ =~= played@.subrange(4 * (n + 1), i + 1));
            } else {
                assert((i + 1) as int / 4 == n);
            }
            i = i + 1;
        }

        let play_done = completed.len() == 13;
        let next_to_act = if play_done {
            None
        } else if trick.len() > 0 {
            Some(trick[trick.len() - 1].0.next())
        } else {
            Some(leader)
        };
        let opening_lead_made = played.len() > 0;
        let r = Folded {
            phase: if play_done {
                Phase::Complete
            } else {
                Phase::Play
            },
            next_to_act,
            opening_lead_made,
            current_trick: if trick.len() == 0 && play_done {
                None
            } else {
                Some((leader, trick))
            },
            calls,
            contract: Some(contract),
            played,
            completed_tricks: completed,
            tricks_ns,
            tricks_ew,
        };
        proof {
            assert(r@.completed_tricks =~= self.folded().completed_tricks);
            assert(r@ =~= self.folded());
        }
        r
    }
    /// Cards `seat` still holds after the plays in `f`.
    pub fn remaining(&self, seat: Direction, f: &Folded) -> (r: Vec<Card>)
        ensures
            r@ == unplayed(self.board.deal@.hand(seat), f.played@, seat),
    {
        let hand = self.board.deal.hand(seat);
        let mut cards: Vec<Card> = Vec::new();
        let mut i: usize = 0;
        while i < hand.len()
            invariant
                i <= hand.len(),
                cards@ == unplayed(hand@.subrange(0, i as int), f.played@, seat),
            decreases hand.len() - i,
        {
            proof {
                let longer = hand@.subrange(0, i + 1);
                assert(longer.drop_last() =~= hand@.subrange(0, i as int));
                assert(longer.last() == hand@[i as int]);
            }
            if !has_played(f.played.as_slice(), seat, hand[i]) {
                cards.push(hand[i]);
            }
            i = i + 1;
        }
        assert(hand@.subrange(0, i as int) =~= hand@);
        cards
    }

    /// Validate and append an action. Returns the new seq on success.
    pub fn apply(&mut self, action: Action) -> (r: Result<usize, ActionError>)
        requires
            old(self).foldable(),
        ensures
            final(self).board == old(self).board,
            match r {
                Ok(n) => {
                    &&& rejection(old(self).board@, old(self).actions@, action) is None
                    &&& final(self).actions@ == old(self).actions@.push(action)
                    &&& n == final(self).actions@.len()
                },
                Err(e) => {
                    &&& rejection(old(self).board@, old(self).actions@, action) == Some(e)
                    &&& final(self).actions@ == old(self).actions@
                },
            },
            old(self).wf() ==> final(self).wf(),
    {
        let f = self.fold();
        match action {
            Action::Call { seat, call } => {
                if f.phase != Phase::Bidding {
                    return Err(ActionError::AuctionOver);
                }
                if f.next_to_act != Some(seat) {
                    return Err(ActionError::NotTurnToCall(seat));
                }
                if !auction::is_legal(self.board.dealer, f.calls.as_slice(), &call) {
                    return Err(ActionError::IllegalCall(call));
                }
            },
            Action::Play { seat, card } => {
                if f.phase != Phase::Play {
                    return Err(ActionError::NotInPlay);
                }
                if f.next_to_act != Some(seat) {
                    return Err(ActionError::NotTurnToPlay(seat));
                }
                let remaining = self.remaining(seat, &f);
                let lead_suit = current_lead_suit(&f);
                if !play::is_legal_play(card, remaining.as_slice(), lead_suit) {
                    return Err(ActionError::IllegalCard(card));
                }
            },
        }
        self.actions.push(action);
        proof {
            if old(self).wf() {
                lemma_legal_push(self.board@, old(self).actions@, action);
            }
        }
        Ok(self.actions.len())
    }

    /// Unlimited undo: truncate the log back to `to_seq`.
    pub fn undo_to(&mut self, to_seq: usize) -> (r: Result<usize, ActionError>)
        ensures
            final(self).board == old(self).board,
            match r {
                Ok(n) => {
                    &&& to_seq <= old(self).actions@.len()
                    &&& final(self).actions@ == old(self).actions@.subrange(0, to_seq as int)
                    &&& n == to_seq
                },
                Err(e) => {
                    &&& to_seq > old(self).actions@.len()
                    &&& e == ActionError::UndoForward
                    &&& final(self).actions@ == old(self).actions@
                },
            },
            old(self).wf() ==> final(self).wf(),
    {
        if to_seq > self.actions.len() {
            return Err(ActionError::UndoForward);
        }
        self.actions.truncate(to_seq);
        proof {
            if old(self).wf() {
                lemma_legal_prefix(self.board@, old(self).actions@, to_seq as int);
            }
        }
        Ok(self.actions.len())
    }
}

/// Whether a seat has played a card.
fn has_played(played: &[(Direction, Card)], seat: Direction, card: Card) -> (r: bool)
    ensures
        r == played@.contains((seat, card)),
{
    let mut i: usize = 0;
    while i < played.len()
        invariant
            i <= played.len(),
            forall|j: int| 0 <= j < i ==> played@[j] != (seat, card),
        decreases played.len() - i,
    {
        if played[i].0 == seat && played[i].1 == card {
            assert(played@[i as int] == (seat, card));
            return true;
        }
        i = i + 1;
    }
    false
}

/// The suit led to the current trick.
pub fn current_lead_suit(f: &Folded) -> (r: Option<Suit>)
    ensures
        r == lead_suit_of(trick_view(f.current_trick)),
{
    match &f.current_trick {
        Some((_, plays)) => if plays.len() > 0 {
            Some(plays[0].1.suit)
        } else {
            None
        },
        None => None,
    }
}

/// A legal action makes a legal log longer.
pub proof fn lemma_legal_push(board: BoardView, log: Seq<Action>, action: Action)
    requires
        legal_log(board, log),
        rejection(board, log, action) is None,
    ensures
        legal_log(board, log.push(action)),
{
    let longer = log.push(action);
    assert forall|i: int| 0 <= i < longer.len() implies rejection(
        board,
        longer.subrange(0, i),
        #[trigger] longer[i],
    ) is None by {
        assert(longer.subrange(0, i) =~= log.subrange(0, i));
        if i < log.len() {
            assert(log[i] == longer[i]);
        } else {
            assert(log.subrange(0, i) =~= log);
        }
    }
}

/// The start of a legal log is a legal log.
pub proof fn lemma_legal_prefix(board: BoardView, log: Seq<Action>, n: int)
    requires
        legal_log(board, log),
        0 <= n <= log.len(),
    ensures
        legal_log(board, log.subrange(0, n)),
{
    let head = log.subrange(0, n);
    assert forall|i: int| 0 <= i < head.len() implies rejection(
        board,
        head.subrange(0, i),
        #[trigger] head[i],
    ) is None by {
        assert(head.subrange(0, i) =~= log.subrange(0, i));
        assert(head[i] == log[i]);
    }
}

/// What a trick's leader is depends on the tricks before it alone.
proof fn lemma_leader_stable(
    first: Direction,
    played: Seq<(Direction, Card)>,
    longer: Seq<(Direction, Card)>,
    trump: Option<Suit>,
    k: int,
)
    requires
        0 <= 4 * k <= played.len() <= longer.len(),
        forall|i: int| 0 <= i < played.len() ==> played[i] == longer[i],
    ensures
        leader_at(first, played, trump, k) == leader_at(first, longer, trump, k),
    decreases k,
{
    if k > 0 {
        lemma_leader_stable(first, played, longer, trump, k - 1);
        assert(trick_cards(played, k - 1) =~= trick_cards(longer, k - 1));
    }
}

/// Play `i` was made by the seat whose turn it was: the leader of the trick
/// plays first, the others after it clockwise.
pub open spec fn played_in_turn(
    first: Direction,
    played: Seq<(Direction, Card)>,
    trump: Option<Suit>,
    i: int,
) -> bool {
    played[i].0 == leader_at(first, played, trump, i / 4).plus(i % 4)
}

/// All plays were made in turn.
pub open spec fn in_turn(
    first: Direction,
    played: Seq<(Direction, Card)>,
    trump: Option<Suit>,
) -> bool {
    forall|i: int|
        0 <= i < played.len() ==> #[trigger] played_in_turn(first, played, trump, i)
}

/// Each play is of a card dealt to its seat, and none is made twice.
pub open spec fn from_hands(deal: DealView, played: Seq<(Direction, Card)>) -> bool {
    &&& forall|i: int|
        #![trigger played[i]]
        0 <= i < played.len() ==> deal.hand(played[i].0).contains(played[i].1)
    &&& forall|i: int, j: int|
        #![trigger played[i], played[j]]
        0 <= i < j < played.len() ==> played[i] != played[j]
}

/// What is unplayed is what the hand holds without what was played.
pub proof fn lemma_unplayed(
    hand: Seq<Card>,
    played: Seq<(Direction, Card)>,
    seat: Direction,
    card: Card,
)
    ensures
        unplayed(hand, played, seat).contains(card) <==> hand.contains(card) && !played.contains(
            (seat, card),
        ),
    decreases hand.len(),
{
    if hand.len() > 0 {
        let head = hand.drop_last();
        lemma_unplayed(head, played, seat, card);
        let rest = unplayed(head, played, seat);
        let whole = unplayed(hand, played, seat);
        if whole.contains(card) {
            let i = whole.index_of(card);
            if i < rest.len() {
                assert(rest[i] == card);
                let j = head.index_of(card);
                assert(hand[j] == card);
            } else {
                assert(hand[hand.len() - 1] == card);
            }
        }
        if hand.contains(card) && !played.contains((seat, card)) {
            let j = hand.index_of(card);
            if j < head.len() {
                assert(head[j] == card);
                let i = rest.index_of(card);
                assert(whole[i] == card);
            } else {
                assert(whole.last() == card);
            }
        }
    }
}

/// A legal call makes a legal auction longer.
proof fn lemma_auction_push(calls: Seq<Call>, call: Call)
    requires
        auction::legal_auction(calls),
        auction::legal(calls, call),
    ensures
        auction::legal_auction(calls.push(call)),
{
    let longer = calls.push(call);
    assert forall|i: int| 0 <= i < longer.len() implies auction::legal(
        longer.subrange(0, i),
        #[trigger] longer[i],
    ) by {
        assert(longer.subrange(0, i) =~= calls.subrange(0, i));
        if i < calls.len() {
            assert(calls[i] == longer[i]);
        } else {
            assert(calls.subrange(0, i) =~= calls);
        }
    }
}

/// A seat that plays when it is its turn keeps the play in turn.
proof fn lemma_in_turn_push(
    first: Direction,
    played: Seq<(Direction, Card)>,
    trump: Option<Suit>,
    seat: Direction,
    card: Card,
)
    requires
        in_turn(first, played, trump),
        seat == (if played.len() % 4 == 0 {
            leader_at(first, played, trump, played.len() as int / 4)
        } else {
            played.last().0.next()
        }),
    ensures
        in_turn(first, played.push((seat, card)), trump),
{
    let longer = played.push((seat, card));
    assert forall|i: int| 0 <= i < longer.len() implies #[trigger] played_in_turn(
        first,
        longer,
        trump,
        i,
    ) by {
        lemma_leader_stable(first, played, longer, trump, i / 4);
        let leader = leader_at(first, played, trump, i / 4);
        if i < played.len() {
            assert(played_in_turn(first, played, trump, i));
            assert(longer[i] == played[i]);
        } else if i % 4 != 0 {
            assert((i - 1) / 4 == i / 4 && (i - 1) % 4 == i % 4 - 1);
            assert(played_in_turn(first, played, trump, i - 1));
            assert(played[i - 1].0 == leader.plus(i % 4 - 1));
            crate::cards::law_plus_adds(leader, i % 4 - 1, 1);
        } else {
            crate::cards::law_plus_adds(leader, 0, 0);
        }
    }
}

/// A card that is still in the hand keeps the plays from the hands.
proof fn lemma_from_hands_push(
    deal: DealView,
    played: Seq<(Direction, Card)>,
    seat: Direction,
    card: Card,
)
    requires
        from_hands(deal, played),
        unplayed(deal.hand(seat), played, seat).contains(card),
    ensures
        from_hands(deal, played.push((seat, card))),
{
    lemma_unplayed(deal.hand(seat), played, seat, card);
    let longer = played.push((seat, card));
    assert forall|i: int, j: int|
        #![trigger longer[i], longer[j]]
        0 <= i < j < longer.len() implies longer[i] != longer[j] by {
        assert(longer[i] == played[i]);
        if j < played.len() {
            assert(longer[j] == played[j]);
        } else {
            assert(!played.contains((seat, card)));
        }
    }
    assert forall|i: int|
        #![trigger longer[i]]
        0 <= i < longer.len() implies deal.hand(longer[i].0).contains(longer[i].1) by {
        if i < played.len() {
            assert(longer[i] == played[i]);
        }
    }
}

/// What holds when a play is accepted: a contract is being played, it is the
/// seat's turn, fewer than thirteen tricks are complete, the card is in the hand.
proof fn lemma_play_accepted(board: BoardView, log: Seq<Action>, seat: Direction, card: Card)
    requires
        rejection(board, log, Action::Play { seat, card }) is None,
    ensures
        auction::contract_of(board.dealer, calls_of(log)) is Some,
        played_of(log).len() / 4 != 13,
        unplayed(board.deal.hand(seat), played_of(log), seat).contains(card),
        ({
            let c = auction::contract_of(board.dealer, calls_of(log))->0;
            let played = played_of(log);
            seat == (if played.len() % 4 == 0 {
                leader_at(c.leader(), played, play::trump_of(c.strain), played.len() as int / 4)
            } else {
                played.last().0.next()
            })
        }),
{
    reveal(fold_of);
    let played = played_of(log);
    let f = fold_of(board.dealer, log);
    play::law_follow_suit(
        unplayed(board.deal.hand(seat), played, seat),
        lead_suit_of(f.current_trick),
        card,
    );
    let k = played.len() as int / 4;
    if played.len() % 4 != 0 {
        assert(played.subrange(4 * k, played.len() as int).last() == played.last());
    }
}

/// Every legal log is a legal auction and then, if it ended in a contract, a
/// play of at most thirteen tricks in which everybody played in turn, and
/// played cards of their own hand, each once.
pub proof fn law_legal_log(board: BoardView, log: Seq<Action>)
    requires
        legal_log(board, log),
    ensures
        auction::legal_auction(calls_of(log)),
        played_of(log).len() <= 52,
        from_hands(board.deal, played_of(log)),
        played_of(log).len() > 0 ==> auction::contract_of(board.dealer, calls_of(log)) is Some,
        auction::contract_of(board.dealer, calls_of(log)) matches Some(c) ==> in_turn(
            c.leader(),
            played_of(log),
            play::trump_of(c.strain),
        ),
    decreases log.len(),
{
    reveal(fold_of);
    if log.len() > 0 {
        let before = log.drop_last();
        let n = before.len() as int;
        assert(before =~= log.subrange(0, n));
        lemma_legal_prefix(board, log, n);
        law_legal_log(board, before);
        assert(rejection(board, before, log[n]) is None);
        match log.last() {
            Action::Call { seat, call } => {
                lemma_auction_push(calls_of(before), call);
                assert(fold_of(board.dealer, before).phase == Phase::Bidding);
                assert(!auction::complete(calls_of(before)));
            },
            Action::Play { seat, card } => {
                lemma_play_accepted(board, before, seat, card);
                let c = auction::contract_of(board.dealer, calls_of(before))->0;
                lemma_in_turn_push(
                    c.leader(),
                    played_of(before),
                    play::trump_of(c.strain),
                    seat,
                    card,
                );
                lemma_from_hands_push(board.deal, played_of(before), seat, card);
            },
        }
    }
}

/// The fold's counters suffice for every legal log.
pub proof fn lemma_wf_foldable(table: TableState)
    requires
        table.wf(),
    ensures
        table.foldable(),
{
    reveal(fold_of);
    law_legal_log(table.board@, table.actions@);
    let played = played_of(table.actions@);
    if let Some(c) = auction::contract_of(table.board.dealer, calls_of(table.actions@)) {
        lemma_tricks_won(
            c.leader(),
            played,
            play::trump_of(c.strain),
            0,
            played.len() as int / 4,
        );
    }
}

/// Somebody is to act until the board is complete, and nobody after that.
pub proof fn law_someone_to_act(dealer: Direction, log: Seq<Action>)
    ensures
        fold_of(dealer, log).next_to_act is None <==> fold_of(dealer, log).phase == Phase::Complete,
{
    reveal(fold_of);
}

/// Every completed trick is counted for one of the pairs; a contract that is
/// played out has thirteen tricks, and all its fifty-two cards were played.
pub proof fn law_tricks_counted(board: BoardView, log: Seq<Action>)
    requires
        legal_log(board, log),
    ensures
        ({
            let f = fold_of(board.dealer, log);
            &&& f.tricks_ns + f.tricks_ew == f.completed_tricks.len()
            &&& f.phase == Phase::Complete && f.contract is Some ==> f.completed_tricks.len() == 13
                && f.played.len() == 52
        }),
{
    reveal(fold_of);
    law_legal_log(board, log);
    let played = played_of(log);
    if let Some(c) = auction::contract_of(board.dealer, calls_of(log)) {
        lemma_tricks_won(
            c.leader(),
            played,
            play::trump_of(c.strain),
            0,
            played.len() as int / 4,
        );
    }
}

/// Undoing an accepted action restores the log that it was applied to, and
/// with it everything that is derived from the log; what was rewound may be
/// applied again.
pub proof fn law_undo_rewinds(board: BoardView, log: Seq<Action>, action: Action)
    requires
        rejection(board, log, action) is None,
    ensures
        log.push(action).subrange(0, log.len() as int) == log,
        fold_of(board.dealer, log.push(action).subrange(0, log.len() as int)) == fold_of(
            board.dealer,
            log,
        ),
        rejection(board, log.push(action).subrange(0, log.len() as int), action) is None,
{
    assert(log.push(action).subrange(0, log.len() as int) =~= log);
}

/// Thirteen different cards for each seat.
pub open spec fn thirteen_each(deal: DealView) -> bool {
    forall|d: Direction|
        #![trigger deal.hand(d)]
        deal.hand(d).len() == 13 && deal.hand(d).no_duplicates()
}

/// One play more is one card more for the seat that made it.
proof fn lemma_plays_step(played: Seq<(Direction, Card)>, n: int, seat: Direction)
    requires
        0 <= n < played.len(),
    ensures
        plays_of(played.subrange(0, n + 1), seat).len() == plays_of(
            played.subrange(0, n),
            seat,
        ).len() + (if played[n].0 == seat {
            1int
        } else {
            0int
        }),
{
    let longer = played.subrange(0, n + 1);
    assert(longer.drop_last() =~= played.subrange(0, n));
    assert(longer.last() == played[n]);
}

/// By the time `k` tricks are complete and `t` cards are played to the next
/// one, every seat has played `k` cards, and those that have played to the
/// current trick one more.
proof fn lemma_one_card_each(
    first: Direction,
    played: Seq<(Direction, Card)>,
    trump: Option<Suit>,
    k: int,
    t: int,
    p: int,
)
    requires
        in_turn(first, played, trump),
        0 <= k,
        0 <= t < 4,
        0 <= p < 4,
        4 * k + t <= played.len(),
    ensures
        plays_of(
            played.subrange(0, 4 * k + t),
            leader_at(first, played, trump, k).plus(p),
        ).len() == (if p < t {
            k + 1
        } else {
            k
        }),
    decreases 4 * k + t,
{
    let leader = leader_at(first, played, trump, k);
    let seat = leader.plus(p);
    let n = 4 * k + t - 1;
    if t > 0 {
        lemma_one_card_each(first, played, trump, k, t - 1, p);
        lemma_plays_step(played, n, seat);
        assert(played[n].0 == leader.plus(t - 1)) by {
            assert(n / 4 == k && n % 4 == t - 1);
            assert(played_in_turn(first, played, trump, n));
        }
        crate::cards::law_places_differ(leader, t - 1, p, leader);
    } else if k > 0 {
        let prev = leader_at(first, played, trump, k - 1);
        let q = (seat.index() - prev.index()) % 4;
        crate::cards::law_places_differ(prev, 3, q, seat);
        lemma_one_card_each(first, played, trump, k - 1, 3, q);
        lemma_plays_step(played, n, seat);
        assert(played[n].0 == prev.plus(3)) by {
            assert(n / 4 == k - 1 && n % 4 == 3);
            assert(played_in_turn(first, played, trump, n));
        }
    } else {
        assert(played.subrange(0, 0) =~= Seq::<(Direction, Card)>::empty());
    }
}

/// The cards a seat has played are among what it is recorded to have played.
proof fn lemma_plays_of_contains(played: Seq<(Direction, Card)>, seat: Direction, card: Card)
    requires
        played.contains((seat, card)),
    ensures
        plays_of(played, seat).contains(card),
    decreases played.len(),
{
    let i = played.index_of((seat, card));
    let head = played.drop_last();
    if i < head.len() {
        assert(head[i] == (seat, card));
        lemma_plays_of_contains(head, seat, card);
        let j = plays_of(head, seat).index_of(card);
        assert(plays_of(played, seat)[j] == card);
    } else {
        assert(plays_of(played, seat).last() == card);
    }
}

/// With thirteen different cards, a seat that has played fewer holds one.
proof fn lemma_card_left(hand: Seq<Card>, played: Seq<(Direction, Card)>, seat: Direction)
    requires
        hand.no_duplicates(),
        plays_of(played, seat).len() < hand.len(),
    ensures
        unplayed(hand, played, seat).len() > 0,
{
    let mine = plays_of(played, seat);
    if unplayed(hand, played, seat).len() == 0 {
        hand.unique_seq_to_set();
        mine.lemma_cardinality_of_set();
        assert forall|card: Card| hand.to_set().contains(card) implies mine.to_set().contains(
            card,
        ) by {
            lemma_unplayed(hand, played, seat, card);
            lemma_plays_of_contains(played, seat, card);
        }
        vstd::set_lib::lemma_len_subset(hand.to_set(), mine.to_set());
    }
}

/// The cards of a deal, all together.
pub open spec fn dealt_cards(deal: DealView) -> Seq<Card> {
    deal.north + deal.east + deal.south + deal.west
}

/// Thirteen cards for each seat, and no card twice.
pub open spec fn full_deal(deal: DealView) -> bool {
    &&& forall|d: Direction| #[trigger] deal.hand(d).len() == 13
    &&& dealt_cards(deal).no_duplicates()
}

/// The cards that the four seats still hold after some plays.
pub open spec fn held_cards(deal: DealView, played: Seq<(Direction, Card)>) -> Seq<Card> {
    unplayed(deal.north, played, Direction::North) + unplayed(deal.east, played, Direction::East)
        + unplayed(deal.south, played, Direction::South) + unplayed(
        deal.west,
        played,
        Direction::West,
    )
}

/// The cards of some plays.
pub open spec fn played_cards(played: Seq<(Direction, Card)>) -> Seq<Card> {
    played.map_values(|p: (Direction, Card)| p.1)
}

/// In a full deal every seat has thirteen different cards.
proof fn lemma_full_deal(deal: DealView)
    requires
        full_deal(deal),
    ensures
        thirteen_each(deal),
        dealt_cards(deal).len() == 52,
{
    let all = dealt_cards(deal);
    assert(deal.hand(Direction::North).len() == 13 && deal.hand(Direction::East).len() == 13
        && deal.hand(Direction::South).len() == 13 && deal.hand(Direction::West).len() == 13);
    assert forall|d: Direction|
        #![trigger deal.hand(d)]
        deal.hand(d).len() == 13 && deal.hand(d).no_duplicates() by {
        let at = 13 * d.index();
        assert forall|i: int, j: int| 0 <= i < 13 && 0 <= j < 13 && i != j implies deal.hand(d)[i]
            != deal.hand(d)[j] by {
            assert(all[at + i] == deal.hand(d)[i]);
            assert(all[at + j] == deal.hand(d)[j]);
        }
    }
}

/// What is unplayed of different cards is different cards.
proof fn lemma_unplayed_distinct(hand: Seq<Card>, played: Seq<(Direction, Card)>, seat: Direction)
    requires
        hand.no_duplicates(),
    ensures
        unplayed(hand, played, seat).no_duplicates(),
    decreases hand.len(),
{
    if hand.len() > 0 {
        let head = hand.drop_last();
        let rest = unplayed(head, played, seat);
        lemma_unplayed_distinct(head, played, seat);
        lemma_unplayed(head, played, seat, hand.last());
        if rest.contains(hand.last()) {
            let i = head.index_of(hand.last());
            assert(hand[i] == hand[hand.len() - 1]);
        }
        assert forall|i: int| 0 <= i < rest.len() implies rest[i] != hand.last() by {
            assert(rest.contains(rest[i]));
        }
    }
}

/// A seat has played what its plays say, and nothing twice if no play was made
/// twice.
proof fn lemma_plays_distinct(played: Seq<(Direction, Card)>, seat: Direction, card: Card)
    requires
        forall|i: int, j: int|
            #![trigger played[i], played[j]]
            0 <= i < j < played.len() ==> played[i] != played[j],
    ensures
        plays_of(played, seat).no_duplicates(),
        plays_of(played, seat).contains(card) ==> played.contains((seat, card)),
    decreases played.len(),
{
    if played.len() > 0 {
        let head = played.drop_last();
        let before = plays_of(head, seat);
        let last = played.last();
        lemma_plays_distinct(head, seat, card);
        lemma_plays_distinct(head, seat, last.1);
        let whole = plays_of(played, seat);
        if before.contains(card) {
            let i = head.index_of((seat, card));
            assert(played[i] == (seat, card));
        }
        if last.0 == seat {
            if before.contains(last.1) {
                let i = head.index_of(last);
                assert(played[i] == played[played.len() - 1]);
            }
            assert forall|i: int| 0 <= i < before.len() implies before[i] != last.1 by {
                assert(before.contains(before[i]));
            }
            if whole.contains(card) && !before.contains(card) {
                let i = whole.index_of(card);
                if i < before.len() {
                    assert(before[i] == card);
                }
                assert(played[played.len() - 1] == (seat, card));
            }
        }
    }
}

/// What a seat holds and what it has played are the cards that it was dealt.
proof fn lemma_hand_accounted(deal: DealView, played: Seq<(Direction, Card)>, seat: Direction)
    requires
        from_hands(deal, played),
        deal.hand(seat).no_duplicates(),
    ensures
        unplayed(deal.hand(seat), played, seat).to_multiset().add(
            plays_of(played, seat).to_multiset(),
        ) == deal.hand(seat).to_multiset(),
        unplayed(deal.hand(seat), played, seat).len() + plays_of(played, seat).len() == deal.hand(
            seat,
        ).len(),
{
    broadcast use vstd::seq_lib::group_to_multiset_ensures;

    let hand = deal.hand(seat);
    let left = unplayed(hand, played, seat);
    let gone = plays_of(played, seat);
    lemma_unplayed_distinct(hand, played, seat);
    assert forall|card: Card|
        #![trigger hand.to_multiset().count(card)]
        left.to_multiset().count(card) + gone.to_multiset().count(card)
            == hand.to_multiset().count(card) by {
        lemma_unplayed(hand, played, seat, card);
        lemma_plays_distinct(played, seat, card);
        if played.contains((seat, card)) {
            lemma_plays_of_contains(played, seat, card);
            let i = played.index_of((seat, card));
            assert(played[i] == (seat, card));
        }
        hand.lemma_multiset_has_no_duplicates();
        left.lemma_multiset_has_no_duplicates();
        gone.lemma_multiset_has_no_duplicates();
    }
    assert(left.to_multiset().add(gone.to_multiset()) =~= hand.to_multiset());
    assert(left.to_multiset().add(gone.to_multiset()).len() == left.len() + gone.len());
}

/// The cards of all plays are those of the four seats' plays.
proof fn lemma_plays_together(played: Seq<(Direction, Card)>)
    ensures
        played_cards(played).to_multiset() == plays_of(
            played,
            Direction::North,
        ).to_multiset().add(plays_of(played, Direction::East).to_multiset()).add(
            plays_of(played, Direction::South).to_multiset(),
        ).add(plays_of(played, Direction::West).to_multiset()),
    decreases played.len(),
{
    broadcast use vstd::seq_lib::group_to_multiset_ensures;

    let n = plays_of(played, Direction::North).to_multiset();
    let e = plays_of(played, Direction::East).to_multiset();
    let s = plays_of(played, Direction::South).to_multiset();
    let w = plays_of(played, Direction::West).to_multiset();
    if played.len() > 0 {
        let head = played.drop_last();
        lemma_plays_together(head);
        assert(played_cards(played) =~= played_cards(head).push(played.last().1));
        assert(played_cards(played).to_multiset() =~= n.add(e).add(s).add(w));
    } else {
        assert(played_cards(played) =~= Seq::<Card>::empty());
        assert(played_cards(played).to_multiset() =~= n.add(e).add(s).add(w));
    }
}

/// The fold lists the plays of the log.
proof fn lemma_fold_played(dealer: Direction, log: Seq<Action>)
    ensures
        fold_of(dealer, log).played == played_of(log),
{
    reveal(fold_of);
}

/// On a full deal the cards are accounted for: whatever has been played, a seat
/// holds the thirteen cards it was dealt less its plays, and every dealt card is
/// either still held or has been played, once.
pub proof fn law_cards_accounted(board: BoardView, log: Seq<Action>, seat: Direction)
    requires
        legal_log(board, log),
        full_deal(board.deal),
    ensures
        ({
            let played = fold_of(board.dealer, log).played;
            let hand = board.deal.hand(seat);
            let cards = held_cards(board.deal, played) + played_cards(played);
            &&& unplayed(hand, played, seat).len() == 13 - plays_of(played, seat).len()
            &&& unplayed(hand, played, seat).to_multiset().add(
                plays_of(played, seat).to_multiset(),
            ) == hand.to_multiset()
            &&& cards.to_multiset() == dealt_cards(board.deal).to_multiset()
            &&& cards.no_duplicates()
            &&& cards.len() == 52
        }),
{
    lemma_fold_played(board.dealer, log);
    law_legal_log(board, log);
    lemma_full_deal(board.deal);
    lemma_deal_accounted(board.deal, played_of(log), seat);
}

/// The cards of a full deal are held or played, each once.
proof fn lemma_deal_accounted(deal: DealView, played: Seq<(Direction, Card)>, seat: Direction)
    requires
        from_hands(deal, played),
        thirteen_each(deal),
        dealt_cards(deal).no_duplicates(),
        dealt_cards(deal).len() == 52,
    ensures
        ({
            let hand = deal.hand(seat);
            let cards = held_cards(deal, played) + played_cards(played);
            &&& unplayed(hand, played, seat).len() == 13 - plays_of(played, seat).len()
            &&& unplayed(hand, played, seat).to_multiset().add(
                plays_of(played, seat).to_multiset(),
            ) == hand.to_multiset()
            &&& cards.to_multiset() == dealt_cards(deal).to_multiset()
            &&& cards.no_duplicates()
            &&& cards.len() == 52
        }),
{
    broadcast use vstd::seq_lib::lemma_multiset_commutative;

    assert(deal.hand(seat).len() == 13);
    lemma_hand_accounted(deal, played, seat);
    lemma_hand_accounted(deal, played, Direction::North);
    lemma_hand_accounted(deal, played, Direction::East);
    lemma_hand_accounted(deal, played, Direction::South);
    lemma_hand_accounted(deal, played, Direction::West);
    lemma_plays_together(played);
    let cards = held_cards(deal, played) + played_cards(played);
    let all = dealt_cards(deal);
    assert(cards.to_multiset() =~= all.to_multiset());
    all.lemma_multiset_has_no_duplicates();
    assert forall|card: Card| #[trigger] cards.to_multiset().contains(card) implies
        cards.to_multiset().count(card) == 1 by {}
    cards.lemma_multiset_has_no_duplicates_conv();
    vstd::seq_lib::to_multiset_len(cards);
    vstd::seq_lib::to_multiset_len(all);
}

/// After plays in turn, the seat after the last one (or the leader of the next
/// trick) is the one that has not yet played to the trick.
#[verifier::spinoff_prover]
proof fn lemma_next_in_turn(first: Direction, played: Seq<(Direction, Card)>, trump: Option<Suit>)
    requires
        in_turn(first, played, trump),
    ensures
        (if played.len() % 4 == 0 {
            leader_at(first, played, trump, played.len() as int / 4)
        } else {
            played.last().0.next()
        }) == leader_at(first, played, trump, played.len() as int / 4).plus(
            played.len() as int % 4,
        ),
{
    let k = played.len() as int / 4;
    let t = played.len() as int % 4;
    let leader = leader_at(first, played, trump, k);
    crate::cards::law_plus_adds(leader, 0, 0);
    if t > 0 {
        let last = played.len() - 1;
        assert(played[last].0 == leader.plus(t - 1)) by {
            assert(last / 4 == k && last % 4 == t - 1);
            assert(played_in_turn(first, played, trump, last));
        }
        crate::cards::law_plus_adds(leader, t - 1, 1);
    }
}

/// Whose turn it is while a contract is played: the leader's of a new trick,
/// else the next seat's after the last play.
proof fn lemma_fold_in_play(dealer: Direction, log: Seq<Action>)
    requires
        fold_of(dealer, log).phase == Phase::Play,
    ensures
        auction::contract_of(dealer, calls_of(log)) is Some,
        played_of(log).len() / 4 != 13,
        ({
            let c = auction::contract_of(dealer, calls_of(log))->0;
            let played = played_of(log);
            fold_of(dealer, log).next_to_act == Some(
                if played.len() % 4 == 0 {
                    leader_at(
                        c.leader(),
                        played,
                        play::trump_of(c.strain),
                        played.len() as int / 4,
                    )
                } else {
                    played.last().0.next()
                },
            )
        }),
{
    reveal(fold_of);
    let played = played_of(log);
    let k = played.len() as int / 4;
    if played.len() % 4 != 0 {
        assert(played.subrange(4 * k, played.len() as int).last() == played.last());
    }
}

/// While a contract is played, the next to play is the seat that has not yet
/// played to the current trick and follows those that have.
proof fn lemma_next_player(board: BoardView, log: Seq<Action>)
    requires
        legal_log(board, log),
        fold_of(board.dealer, log).phase == Phase::Play,
    ensures
        auction::contract_of(board.dealer, calls_of(log)) is Some,
        played_of(log).len() < 52,
        ({
            let c = auction::contract_of(board.dealer, calls_of(log))->0;
            let played = played_of(log);
            fold_of(board.dealer, log).next_to_act == Some(
                leader_at(
                    c.leader(),
                    played,
                    play::trump_of(c.strain),
                    played.len() as int / 4,
                ).plus(played.len() as int % 4),
            )
        }),
{
    lemma_fold_in_play(board.dealer, log);
    law_legal_log(board, log);
    let c = auction::contract_of(board.dealer, calls_of(log))->0;
    lemma_next_in_turn(c.leader(), played_of(log), play::trump_of(c.strain));
}

/// With thirteen cards to each seat, whoever is to play holds a card.
proof fn lemma_player_holds_card(board: BoardView, log: Seq<Action>)
    requires
        legal_log(board, log),
        thirteen_each(board.deal),
        fold_of(board.dealer, log).phase == Phase::Play,
    ensures
        fold_of(board.dealer, log).next_to_act is Some,
        ({
            let seat = fold_of(board.dealer, log).next_to_act->0;
            unplayed(board.deal.hand(seat), played_of(log), seat).len() > 0
        }),
{
    lemma_next_player(board, log);
    law_legal_log(board, log);
    let played = played_of(log);
    let c = auction::contract_of(board.dealer, calls_of(log))->0;
    let k = played.len() as int / 4;
    let t = played.len() as int % 4;
    let seat = fold_of(board.dealer, log).next_to_act->0;
    lemma_one_card_each(c.leader(), played, play::trump_of(c.strain), k, t, t);
    assert(played.subrange(0, 4 * k + t) =~= played);
    assert(board.deal.hand(seat).len() == 13);
    lemma_card_left(board.deal.hand(seat), played, seat);
}

/// A board that is not complete never gets stuck: with thirteen cards to each
/// seat, whoever is to act has a legal action.
pub proof fn law_never_stuck(board: BoardView, log: Seq<Action>)
    requires
        legal_log(board, log),
        thirteen_each(board.deal),
        fold_of(board.dealer, log).phase != Phase::Complete,
    ensures
        exists|action: Action| #[trigger] rejection(board, log, action) is None,
{
    reveal(fold_of);
    let f = fold_of(board.dealer, log);
    let seat = f.next_to_act->0;
    if f.phase == Phase::Bidding {
        assert(rejection(board, log, Action::Call { seat, call: Call::Pass }) is None);
    } else {
        lemma_player_holds_card(board, log);
        let left = unplayed(board.deal.hand(seat), f.played, seat);
        let lead = lead_suit_of(f.current_trick);
        play::law_some_card_is_legal(left, lead);
        let card = play::playable(left, lead)[0];
        assert(play::playable(left, lead).contains(card));
        assert(rejection(board, log, Action::Play { seat, card }) is None);
    }
}

/// How a played contract came out.
#[derive(Clone, Copy, Debug, PartialEq, Eq, Structural)]
pub struct ContractResult {
    pub contract: ContractOutcome,
    pub declarer_tricks: u8,
    /// Relative result: 0 = made exactly, +N overtricks, -N down.
    pub made: i16,
}

/// How a board came out.
#[derive(Clone, Copy, Debug, PartialEq, Eq, Structural)]
pub struct BoardResult {
    pub board_no: u32,
    pub passed_out: bool,
    pub contract: Option<ContractResult>,
    pub tricks_ns: u8,
    pub tricks_ew: u8,
}

/// The result of a fold of a complete board.
pub open spec fn result_of(number: u32, f: FoldedView) -> Option<BoardResult> {
    if f.phase != Phase::Complete {
        None
    } else {
        Some(
            BoardResult {
                board_no: number,
                passed_out: f.contract is None,
                contract: match f.contract {
                    Some(c) => {
                        let tricks = if c.declarer.is_ns() {
                            f.tricks_ns
                        } else {
                            f.tricks_ew
                        };
                        Some(
                            ContractResult {
                                contract: c,
                                declarer_tricks: tricks as u8,
                                made: (tricks - (c.level + 6)) as i16,
                            },
                        )
                    },
                    None => None,
                },
                tricks_ns: f.tricks_ns as u8,
                tricks_ew: f.tricks_ew as u8,
            },
        )
    }
}

/// What the seat on turn may do.
#[derive(Debug)]
pub enum LegalActions {
    /// Any legal call.
    Call { seat: Direction },
    /// One of these cards.
    Cards { seat: Direction, cards: Vec<Card> },
}

/// What `LegalActions` says.
pub ghost enum LegalActionsView {
    Call { seat: Direction },
    Cards { seat: Direction, cards: Seq<Card> },
}

impl View for LegalActions {
    type V = LegalActionsView;

    open spec fn view(&self) -> LegalActionsView {
        match self {
            LegalActions::Call { seat } => LegalActionsView::Call { seat: *seat },
            LegalActions::Cards { seat, cards } => LegalActionsView::Cards {
                seat: *seat,
                cards: cards@,
            },
        }
    }
}

/// A full snapshot of a table, the same for every viewer: all four hands are
/// in it, and clients redact locally.
#[derive(Debug)]
pub struct Snapshot {
    pub seq: usize,
    pub number: u32,
    pub dealer: Direction,
    pub vulnerable: Vulnerability,
    pub phase: Phase,
    pub auction: Vec<Call>,
    pub contract: Option<ContractOutcome>,
    pub next_to_act: Option<Direction>,
    pub current_trick: Option<(Direction, Vec<(Direction, Card)>)>,
    pub tricks_ns: u8,
    pub tricks_ew: u8,
    pub hands: Deal,
    pub legal: Option<LegalActions>,
}

/// What a snapshot says.
#[verifier::ext_equal]
pub ghost struct SnapshotView {
    pub seq: nat,
    pub number: u32,
    pub dealer: Direction,
    pub vulnerable: Vulnerability,
    pub phase: Phase,
    pub auction: Seq<Call>,
    pub contract: Option<ContractOutcome>,
    pub next_to_act: Option<Direction>,
    pub current_trick: Option<(Direction, Seq<(Direction, Card)>)>,
    pub tricks_ns: nat,
    pub tricks_ew: nat,
    pub hands: DealView,
    pub legal: Option<LegalActionsView>,
}

impl View for Snapshot {
    type V = SnapshotView;

    open spec fn view(&self) -> SnapshotView {
        SnapshotView {
            seq: self.seq as nat,
            number: self.number,
            dealer: self.dealer,
            vulnerable: self.vulnerable,
            phase: self.phase,
            auction: self.auction@,
            contract: self.contract,
            next_to_act: self.next_to_act,
            current_trick: trick_view(self.current_trick),
            tricks_ns: self.tricks_ns as nat,
            tricks_ew: self.tricks_ew as nat,
            hands: self.hands@,
            legal: match self.legal {
                Some(legal) => Some(legal@),
                None => None,
            },
        }
    }
}

/// What a snapshot of a table shows. A complete board shows each seat's
/// original hand, a board in progress what each seat still holds. With
/// `bid_only`, a board is complete as soon as its contract is reached.
pub open spec fn snapshot_of(board: BoardView, log: Seq<Action>, bid_only: bool) -> SnapshotView {
    let f = fold_of(board.dealer, log);
    let complete = f.phase == Phase::Complete || (bid_only && f.phase == Phase::Play);
    let left = |seat: Direction| unplayed(board.deal.hand(seat), f.played, seat);
    SnapshotView {
        seq: log.len(),
        number: board.number,
        dealer: board.dealer,
        vulnerable: board.vulnerable,
        phase: if complete {
            Phase::Complete
        } else {
            f.phase
        },
        auction: f.calls,
        contract: f.contract,
        next_to_act: f.next_to_act,
        current_trick: f.current_trick,
        tricks_ns: f.tricks_ns,
        tricks_ew: f.tricks_ew,
        hands: if complete {
            board.deal
        } else {
            DealView {
                north: left(Direction::North),
                east: left(Direction::East),
                south: left(Direction::South),
                west: left(Direction::West),
            }
        },
        legal: match f.next_to_act {
            Some(seat) => if f.phase == Phase::Bidding {
                Some(LegalActionsView::Call { seat })
            } else if f.phase == Phase::Play && !complete {
                Some(
                    LegalActionsView::Cards {
                        seat,
                        cards: play::playable(left(seat), lead_suit_of(f.current_trick)),
                    },
                )
            } else {
                None
            },
            None => None,
        },
    }
}

impl TableState {
    /// The board-result payload, once the board is complete (played out or
    /// passed out). None while in progress. Broadcast at board completion;
    /// results are not kept, this live broadcast is the whole delivery.
    pub fn board_result_json(&self) -> (r: Option<BoardResult>)
        requires
            self.foldable(),
        ensures
            r == result_of(self.board.number, self.folded()),
    {
        let f = self.fold();
        if f.phase != Phase::Complete {
            return None;
        }
        let contract = match f.contract {
            Some(c) => {
                let declarer_tricks: u8 = if c.declarer.north_south() {
                    f.tricks_ns
                } else {
                    f.tricks_ew
                };
                let made: i16 = declarer_tricks as i16 - (c.level as i16 + 6);
                Some(ContractResult { contract: c, declarer_tricks, made })
            },
            None => None,
        };
        Some(
            BoardResult {
                board_no: self.board.number,
                passed_out: f.contract.is_none(),
                contract,
                tricks_ns: f.tricks_ns,
                tricks_ew: f.tricks_ew,
            },
        )
    }

    /// Full (un-redacted) snapshot of the table. Every viewer receives ALL
    /// four hands — the client redacts locally (friends-table model). The
    /// snapshot is therefore viewer-independent and safe to broadcast to every
    /// connection.
    ///
    /// A COMPLETE board reports each seat's ORIGINAL hand (post-mortem
    /// review — the remaining cards would all be empty otherwise). While
    /// play is in progress, each seat's cards are its REMAINING cards.
    /// `bid_only` treats a contract-reached board as complete (bid-only
    /// boards end at the contract, all hands shown for discussion).
    ///
    /// `legal` carries the legal actions for whichever seat is on turn
    /// (also viewer-independent); the client shows them only for seats the
    /// connection occupies.
    pub fn snapshot(&self, bid_only: bool) -> (r: Snapshot)
        requires
            self.foldable(),
        ensures
            r@ == snapshot_of(self.board@, self.actions@, bid_only),
    {
        let f = self.fold();
        let complete = f.phase == Phase::Complete || (bid_only && f.phase == Phase::Play);
        let hands = if complete {
            self.board.deal.copy()
        } else {
            Deal {
                north: self.remaining(Direction::North, &f),
                east: self.remaining(Direction::East, &f),
                south: self.remaining(Direction::South, &f),
                west: self.remaining(Direction::West, &f),
            }
        };

        // Legal actions for the seat on turn, regardless of viewer.
        let legal = match (f.phase, f.next_to_act) {
            (Phase::Bidding, Some(seat)) => Some(LegalActions::Call { seat }),
            (Phase::Play, Some(seat)) => if complete {
                None
            } else {
                let lead_suit = current_lead_suit(&f);
                let left = self.remaining(seat, &f);
                Some(
                    LegalActions::Cards {
                        seat,
                        cards: play::legal_cards(left.as_slice(), lead_suit),
                    },
                )
            },
            _ => None,
        };
        let phase = if complete {
            Phase::Complete
        } else {
            f.phase
        };
        let r = Snapshot {
            seq: self.seq(),
            number: self.board.number,
            dealer: self.board.dealer,
            vulnerable: self.board.vulnerable,
            phase,
            auction: f.calls,
            contract: f.contract,
            next_to_act: f.next_to_act,
            current_trick: f.current_trick,
            tricks_ns: f.tricks_ns,
            tricks_ew: f.tricks_ew,
            hands,
            legal,
        };
        assert(r@ =~= snapshot_of(self.board@, self.actions@, bid_only));
        r
    }
}

/// What a snapshot offers as legal is what the table accepts: a card is listed
/// for a seat exactly if the table would take it from that seat.
pub proof fn law_snapshot_lists_legal_cards(
    board: BoardView,
    log: Seq<Action>,
    seat: Direction,
    card: Card,
)
    ensures
        rejection(board, log, Action::Play { seat, card }) is None <==> (snapshot_of(
            board,
            log,
            false,
        ).legal matches Some(LegalActionsView::Cards { seat: on_turn, cards }) && on_turn == seat
            && cards.contains(card)),
{
    reveal(fold_of);
}

/// A complete board shows every original hand; a hand in progress shows what
/// was dealt less what its seat has played.
pub proof fn law_snapshot_hands(
    board: BoardView,
    log: Seq<Action>,
    bid_only: bool,
    seat: Direction,
    card: Card,
)
    ensures
        ({
            let s = snapshot_of(board, log, bid_only);
            if s.phase == Phase::Complete {
                s.hands.hand(seat) == board.deal.hand(seat)
            } else {
                s.hands.hand(seat).contains(card) <==> board.deal.hand(seat).contains(card)
                    && !played_of(log).contains((seat, card))
            }
        }),
{
    reveal(fold_of);
    lemma_unplayed(board.deal.hand(seat), played_of(log), seat, card);
}

/// A result is there exactly when the board is complete. A pass-out has no
/// contract and no tricks; otherwise all thirteen tricks are counted, and the
/// contract is made by as many tricks as declarer took above book and level.
pub proof fn law_result(board: BoardView, log: Seq<Action>)
    requires
        legal_log(board, log),
    ensures
        ({
            let f = fold_of(board.dealer, log);
            let r = result_of(board.number, f);
            &&& r is Some <==> f.phase == Phase::Complete
            &&& r matches Some(result) ==> {
                &&& result.passed_out <==> result.contract is None
                &&& result.passed_out ==> result.tricks_ns == 0 && result.tricks_ew == 0
                &&& !result.passed_out ==> result.tricks_ns + result.tricks_ew == 13
                &&& result.contract matches Some(c) ==> c.made == c.declarer_tricks
                    - c.contract.level - 6
            }
        }),
{
    reveal(fold_of);
    law_tricks_counted(board, log);
    law_legal_log(board, log);
}

/// While the auction lasts, a snapshot offers a call to exactly that seat from
/// which the table would take a pass, and to nobody once it is over.
pub proof fn law_snapshot_offers_calls(
    board: BoardView,
    log: Seq<Action>,
    bid_only: bool,
    seat: Direction,
)
    ensures
        rejection(board, log, Action::Call { seat, call: Call::Pass }) is None <==> snapshot_of(
            board,
            log,
            bid_only,
        ).legal == Some(LegalActionsView::Call { seat }),
{
    reveal(fold_of);
}

/// A board of which only the auction is played never offers a card, and is
/// complete as soon as no call is to be made.
pub proof fn law_bid_only(board: BoardView, log: Seq<Action>)
    ensures
        ({
            let s = snapshot_of(board, log, true);
            &&& !(s.legal matches Some(LegalActionsView::Cards { .. }))
            &&& s.phase == Phase::Complete <==> s.legal is None
            &&& s.phase == Phase::Complete || s.phase == Phase::Bidding
        }),
{
    reveal(fold_of);
}

/// How many of some tricks one of two seats has won.
pub open spec fn tricks_taken(
    tricks: Seq<(Direction, Seq<Card>, Direction)>,
    a: Direction,
    b: Direction,
) -> nat {
    tricks.filter(|trick: (Direction, Seq<Card>, Direction)| trick.2 == a || trick.2 == b).len()
}

/// One more trick is one more for the seat that wins it.
proof fn lemma_tricks_taken(
    tricks: Seq<(Direction, Seq<Card>, Direction)>,
    a: Direction,
    b: Direction,
)
    ensures
        tricks.len() == 0 ==> tricks_taken(tricks, a, b) == 0,
        tricks.len() > 0 ==> tricks_taken(tricks, a, b) == tricks_taken(tricks.drop_last(), a, b)
            + (if tricks.last().2 == a || tricks.last().2 == b {
            1nat
        } else {
            0nat
        }),
{
    reveal(Seq::filter);
}

/// Counting a pair's tricks is counting those that its two seats have won.
proof fn lemma_pair_tricks(
    first: Direction,
    played: Seq<(Direction, Card)>,
    trump: Option<Suit>,
    tricks: Seq<(Direction, Seq<Card>, Direction)>,
    seat: Direction,
)
    requires
        forall|k: int|
            #![trigger tricks[k]]
            0 <= k < tricks.len() ==> tricks[k].2 == leader_at(first, played, trump, k + 1),
    ensures
        tricks_won(first, played, trump, tricks.len() as int, seat.is_ns()) == tricks_taken(
            tricks,
            seat,
            seat.partner(),
        ),
    decreases tricks.len(),
{
    lemma_tricks_taken(tricks, seat, seat.partner());
    if tricks.len() > 0 {
        let head = tricks.drop_last();
        assert forall|k: int|
            #![trigger head[k]]
            0 <= k < head.len() implies head[k].2 == leader_at(first, played, trump, k + 1) by {
            assert(head[k] == tricks[k]);
        }
        lemma_pair_tricks(first, played, trump, head, seat);
        assert(tricks[tricks.len() - 1] == tricks.last());
    }
}

/// The tricks that a fold lists, and who has won how many.
proof fn lemma_fold_tricks(dealer: Direction, log: Seq<Action>)
    requires
        auction::contract_of(dealer, calls_of(log)) is Some,
    ensures
        ({
            let f = fold_of(dealer, log);
            let c = auction::contract_of(dealer, calls_of(log))->0;
            let played = played_of(log);
            let trump = play::trump_of(c.strain);
            let n = played.len() as int / 4;
            &&& f.contract == Some(c)
            &&& f.played == played
            &&& f.opening_lead_made <==> played.len() > 0
            &&& f.completed_tricks.len() == n
            &&& f.tricks_ns == tricks_won(c.leader(), played, trump, n, true)
            &&& f.tricks_ew == tricks_won(c.leader(), played, trump, n, false)
            &&& forall|k: int|
                #![trigger f.completed_tricks[k]]
                0 <= k < n ==> f.completed_tricks[k] == (
                    leader_at(c.leader(), played, trump, k),
                    trick_cards(played, k),
                    leader_at(c.leader(), played, trump, k + 1),
                )
        }),
{
    reveal(fold_of);
}

/// Without a contract a fold lists no tricks.
proof fn lemma_fold_no_tricks(dealer: Direction, log: Seq<Action>)
    requires
        auction::contract_of(dealer, calls_of(log)) is None,
    ensures
        fold_of(dealer, log).contract is None,
        fold_of(dealer, log).completed_tricks.len() == 0,
        fold_of(dealer, log).tricks_ns == 0,
        fold_of(dealer, log).tricks_ew == 0,
{
    reveal(fold_of);
}

/// A pair's tricks are the completed tricks that one of its two seats has won.
pub proof fn law_pairs_tricks(dealer: Direction, log: Seq<Action>)
    ensures
        ({
            let f = fold_of(dealer, log);
            &&& f.tricks_ns == tricks_taken(f.completed_tricks, Direction::North, Direction::South)
            &&& f.tricks_ew == tricks_taken(f.completed_tricks, Direction::East, Direction::West)
        }),
{
    let f = fold_of(dealer, log);
    if let Some(c) = auction::contract_of(dealer, calls_of(log)) {
        lemma_fold_tricks(dealer, log);
        let trump = play::trump_of(c.strain);
        lemma_pair_tricks(
            c.leader(),
            played_of(log),
            trump,
            f.completed_tricks,
            Direction::North,
        );
        lemma_pair_tricks(
            c.leader(),
            played_of(log),
            trump,
            f.completed_tricks,
            Direction::East,
        );
    } else {
        lemma_fold_no_tricks(dealer, log);
        lemma_tricks_taken(f.completed_tricks, Direction::North, Direction::South);
        lemma_tricks_taken(f.completed_tricks, Direction::East, Direction::West);
    }
}

/// The result of a played board counts for declarer the completed tricks that
/// declarer or their partner has won, and for each pair those that its two seats
/// have won.
pub proof fn law_declarers_tricks(board: BoardView, log: Seq<Action>)
    requires
        legal_log(board, log),
        fold_of(board.dealer, log).phase == Phase::Complete,
    ensures
        ({
            let f = fold_of(board.dealer, log);
            result_of(board.number, f) matches Some(result) && {
                &&& result.board_no == board.number
                &&& result.tricks_ns == tricks_taken(
                    f.completed_tricks,
                    Direction::North,
                    Direction::South,
                )
                &&& result.tricks_ew == tricks_taken(
                    f.completed_tricks,
                    Direction::East,
                    Direction::West,
                )
                &&& result.contract is Some <==> f.contract is Some
                &&& result.contract matches Some(played) ==> {
                    &&& f.contract == Some(played.contract)
                    &&& played.declarer_tricks == tricks_taken(
                        f.completed_tricks,
                        played.contract.declarer,
                        played.contract.declarer.partner(),
                    )
                }
            }
        }),
{
    let f = fold_of(board.dealer, log);
    law_pairs_tricks(board.dealer, log);
    law_tricks_counted(board, log);
    lemma_result_fits(board, log);
    if let Some(c) = auction::contract_of(board.dealer, calls_of(log)) {
        lemma_fold_tricks(board.dealer, log);
        lemma_pair_tricks(
            c.leader(),
            played_of(log),
            play::trump_of(c.strain),
            f.completed_tricks,
            c.declarer,
        );
    } else {
        lemma_fold_no_tricks(board.dealer, log);
    }
}

/// No pair wins more than thirteen tricks.
pub proof fn lemma_result_fits(board: BoardView, log: Seq<Action>)
    requires
        legal_log(board, log),
    ensures
        fold_of(board.dealer, log).tricks_ns <= 13,
        fold_of(board.dealer, log).tricks_ew <= 13,
{
    law_legal_log(board, log);
    if let Some(c) = auction::contract_of(board.dealer, calls_of(log)) {
        lemma_fold_tricks(board.dealer, log);
        lemma_tricks_won(
            c.leader(),
            played_of(log),
            play::trump_of(c.strain),
            0,
            played_of(log).len() as int / 4,
        );
    } else {
        lemma_fold_no_tricks(board.dealer, log);
    }
}

/// A card that takes a trick: of the suit that bears the given letter if the
/// trick holds one, and else of the suit led; and no card of its suit is higher.
pub open spec fn takes(cards: Seq<Card>, w: int, trump_letter: char) -> bool {
    &&& (exists|i: int|
        0 <= i < cards.len() && (#[trigger] cards[i]).suit.to_char() == trump_letter)
        ==> cards[w].suit.to_char() == trump_letter
    &&& (forall|i: int|
        0 <= i < cards.len() ==> (#[trigger] cards[i]).suit.to_char() != trump_letter)
        ==> cards[w].suit == cards[0].suit
    &&& forall|i: int|
        #![trigger cards[i]]
        0 <= i < cards.len() && cards[i].suit == cards[w].suit ==> cards[i].rank.pips()
            <= cards[w].rank.pips()
}

/// The winner of a trick sits where the card that takes it was played.
proof fn lemma_trick_taken(leader: Direction, cards: Seq<Card>, strain: Strain)
    requires
        cards.len() > 0,
    ensures
        exists|w: int|
            {
                &&& 0 <= w < cards.len()
                &&& play::winner_of(leader, cards, play::trump_of(strain)) == leader.plus(w)
                &&& #[trigger] takes(cards, w, strain.to_char())
            },
{
    let trump = play::trump_of(strain);
    play::law_trick_winner(leader, cards, trump);
    let w = choose|w: int|
        {
            &&& 0 <= w < cards.len()
            &&& play::winner_of(leader, cards, trump) == #[trigger] leader.plus(w)
            &&& (trump == Some(cards[w].suit) || (cards[w].suit == cards[0].suit && forall|i: int|
                0 <= i < cards.len() ==> trump != Some((#[trigger] cards[i]).suit)))
            &&& forall|i: int|
                #![trigger cards[i]]
                0 <= i < cards.len() && cards[i].suit == cards[w].suit ==> cards[i].rank.pips()
                    <= cards[w].rank.pips()
        };
    assert forall|i: int| 0 <= i < cards.len() implies ((#[trigger] cards[i]).suit.to_char()
        == strain.to_char() <==> trump == Some(cards[i].suit)) by {
        lemma_letter_is_trump(cards[i].suit, strain);
    }
    assert(takes(cards, w, strain.to_char()));
}

/// The cards of a complete trick were played clockwise from its leader.
proof fn lemma_trick_in_turn(
    first: Direction,
    played: Seq<(Direction, Card)>,
    trump: Option<Suit>,
    k: int,
    i: int,
)
    requires
        in_turn(first, played, trump),
        0 <= 4 * k,
        4 * k + 4 <= played.len(),
        0 <= i < 4,
    ensures
        played[4 * k + i] == (leader_at(first, played, trump, k).plus(i), trick_cards(played, k)[i]),
{
    assert((4 * k + i) / 4 == k && (4 * k + i) % 4 == i);
    assert(played_in_turn(first, played, trump, 4 * k + i));
}

/// The opening lead comes from declarer's left, and whoever wins a trick leads
/// to the next one; the four cards of a trick come from the leader and the seats
/// clockwise from there.
pub proof fn law_tricks_are_led(board: BoardView, log: Seq<Action>, k: int, i: int)
    requires
        legal_log(board, log),
        0 <= k < fold_of(board.dealer, log).completed_tricks.len(),
        0 <= i < 4,
    ensures
        ({
            let f = fold_of(board.dealer, log);
            let (leader, cards, winner) = f.completed_tricks[k];
            f.contract matches Some(c) && {
                &&& f.opening_lead_made
                &&& leader == (if k == 0 {
                    c.declarer.next()
                } else {
                    f.completed_tricks[k - 1].2
                })
                &&& cards.len() == 4
                &&& f.played[4 * k + i] == (leader.plus(i), cards[i])
            }
        }),
{
    let f = fold_of(board.dealer, log);
    if auction::contract_of(board.dealer, calls_of(log)) is None {
        lemma_fold_no_tricks(board.dealer, log);
    }
    lemma_fold_tricks(board.dealer, log);
    law_legal_log(board, log);
    let c = auction::contract_of(board.dealer, calls_of(log))->0;
    let trump = play::trump_of(c.strain);
    lemma_trick_in_turn(c.leader(), played_of(log), trump, k, i);
    assert(f.completed_tricks[k].0 == leader_at(c.leader(), played_of(log), trump, k));
    if k > 0 {
        assert(f.completed_tricks[k - 1].2 == leader_at(c.leader(), played_of(log), trump, k));
    }
}

/// A trick was won by the seat that played the card that takes it, the suit
/// that bears the letter of the contract's strain being trumps.
pub proof fn law_tricks_are_won(board: BoardView, log: Seq<Action>, k: int)
    requires
        legal_log(board, log),
        0 <= k < fold_of(board.dealer, log).completed_tricks.len(),
    ensures
        ({
            let f = fold_of(board.dealer, log);
            let (leader, cards, winner) = f.completed_tricks[k];
            f.contract matches Some(c) && exists|w: int|
                {
                    &&& 0 <= w < 4
                    &&& f.played[4 * k + w] == (winner, cards[w])
                    &&& #[trigger] takes(cards, w, c.strain.to_char())
                }
        }),
{
    let f = fold_of(board.dealer, log);
    law_tricks_are_led(board, log, k, 0);
    lemma_fold_tricks_won(board.dealer, log, k);
    let (leader, cards, winner) = f.completed_tricks[k];
    let c = f.contract->0;
    lemma_trick_taken(leader, cards, c.strain);
    let w = choose|w: int|
        {
            &&& 0 <= w < cards.len()
            &&& play::winner_of(leader, cards, play::trump_of(c.strain)) == leader.plus(w)
            &&& #[trigger] takes(cards, w, c.strain.to_char())
        };
    law_tricks_are_led(board, log, k, w);
}

/// A listed trick's winner is the winner of its cards.
proof fn lemma_fold_tricks_won(dealer: Direction, log: Seq<Action>, k: int)
    requires
        fold_of(dealer, log).contract is Some,
        0 <= k < fold_of(dealer, log).completed_tricks.len(),
    ensures
        ({
            let f = fold_of(dealer, log);
            let (leader, cards, winner) = f.completed_tricks[k];
            winner == play::winner_of(leader, cards, play::trump_of(f.contract->0.strain))
        }),
{
    if auction::contract_of(dealer, calls_of(log)) is None {
        lemma_fold_no_tricks(dealer, log);
    }
    lemma_fold_tricks(dealer, log);
}

/// A suit bears a strain's letter exactly if it is trumps in that strain.
proof fn lemma_letter_is_trump(suit: Suit, strain: Strain)
    ensures
        suit.to_char() == strain.to_char() <==> play::trump_of(strain) == Some(suit),
{
}

/// A legal log is the calls of the auction, made in turn clockwise from the
/// dealer, and then the plays, each listed as it was made.
pub proof fn law_calls_then_plays(board: BoardView, log: Seq<Action>, i: int)
    requires
        legal_log(board, log),
        0 <= i < log.len(),
    ensures
        calls_of(log).len() + played_of(log).len() == log.len(),
        log[i] is Call <==> i < calls_of(log).len(),
        log[i] matches Action::Call { seat, call } ==> seat == board.dealer.plus(i)
            && calls_of(log)[i] == call,
        log[i] matches Action::Play { seat, card } ==> played_of(log)[i - calls_of(log).len()] == (
            seat,
            card,
        ),
    decreases log.len(),
{
    let before = log.drop_last();
    let n = before.len() as int;
    assert(before =~= log.subrange(0, n));
    lemma_legal_prefix(board, log, n);
    assert(rejection(board, before, log[n]) is None);
    lemma_accepted_phase(board, before, log[n]);
    if i < n {
        law_calls_then_plays(board, before, i);
        assert(before[i] == log[i]);
    } else if n > 0 {
        law_calls_then_plays(board, before, n - 1);
    } else {
        assert(calls_of(before).len() == 0 && played_of(before).len() == 0);
    }
    if log[n] is Call {
        lemma_no_plays_in_auction(board, before);
    }
}

/// What phase an accepted action needs, and who makes a call.
proof fn lemma_accepted_phase(board: BoardView, log: Seq<Action>, action: Action)
    requires
        rejection(board, log, action) is None,
    ensures
        action is Play <==> auction::complete(calls_of(log)),
        action matches Action::Call { seat, .. } ==> seat == board.dealer.plus(
            calls_of(log).len() as int,
        ),
{
    reveal(fold_of);
}

/// Nothing is played while the auction lasts.
proof fn lemma_no_plays_in_auction(board: BoardView, log: Seq<Action>)
    requires
        legal_log(board, log),
        !auction::complete(calls_of(log)),
    ensures
        played_of(log).len() == 0,
{
    law_legal_log(board, log);
}

/// A snapshot reports the board as it was set up and the auction, the trick and
/// the tricks as the log has them.
pub proof fn law_snapshot_reports(board: BoardView, log: Seq<Action>, bid_only: bool)
    requires
        legal_log(board, log),
    ensures
        ({
            let f = fold_of(board.dealer, log);
            let s = snapshot_of(board, log, bid_only);
            &&& s.seq == log.len()
            &&& s.number == board.number
            &&& s.dealer == board.dealer
            &&& s.vulnerable == board.vulnerable
            &&& forall|i: int|
                #![trigger s.auction[i]]
                0 <= i < s.auction.len() ==> log[i] == (Action::Call {
                    seat: board.dealer.plus(i),
                    call: s.auction[i],
                })
            &&& s.auction.len() < log.len() ==> log[s.auction.len() as int] is Play
            &&& s.contract == auction::contract_of(board.dealer, s.auction)
            &&& s.tricks_ns == tricks_taken(f.completed_tricks, Direction::North, Direction::South)
            &&& s.tricks_ew == tricks_taken(f.completed_tricks, Direction::East, Direction::West)
            &&& s.legal matches Some(LegalActionsView::Call { seat }) ==> s.next_to_act == Some(
                seat,
            )
            &&& s.legal matches Some(LegalActionsView::Cards { seat, .. }) ==> s.next_to_act
                == Some(seat)
        }),
{
    law_pairs_tricks(board.dealer, log);
    lemma_fold_auction(board.dealer, log);
    let s = snapshot_of(board, log, bid_only);
    assert forall|i: int|
        #![trigger s.auction[i]]
        0 <= i < s.auction.len() implies log[i] == (Action::Call {
        seat: board.dealer.plus(i),
        call: s.auction[i],
    }) by {
        lemma_calls_within(log);
        law_calls_then_plays(board, log, i);
    }
    if s.auction.len() < log.len() {
        law_calls_then_plays(board, log, s.auction.len() as int);
    }
}

/// A log has no more calls than actions.
proof fn lemma_calls_within(log: Seq<Action>)
    ensures
        calls_of(log).len() <= log.len(),
    decreases log.len(),
{
    if log.len() > 0 {
        lemma_calls_within(log.drop_last());
    }
}

/// The auction and the contract that a fold lists.
proof fn lemma_fold_auction(dealer: Direction, log: Seq<Action>)
    ensures
        fold_of(dealer, log).calls == calls_of(log),
        fold_of(dealer, log).contract == auction::contract_of(dealer, calls_of(log)),
{
    reveal(fold_of);
}

/// The cards of a recorded trick belong to the seats clockwise from its leader.
pub proof fn law_recorded_trick(trick: PlayTrick, i: int)
    requires
        0 <= i < 4,
    ensures
        trick.card_of(trick.leader.plus(i)) == trick.cards@[i],
{
    assert((trick.leader.plus(i).index() - trick.leader.index()) % 4 == i);
}

/// Whose turn it is. In the auction the seats call in turn, the dealer first. In
/// the play declarer's left leads first, whoever has won a trick leads to the
/// next, and to a trick that is begun the seat to the left of the last player
/// plays.
pub proof fn law_whose_turn(dealer: Direction, log: Seq<Action>)
    ensures
        ({
            let f = fold_of(dealer, log);
            let n = f.played.len() as int;
            &&& f.phase == Phase::Bidding ==> f.next_to_act == Some(
                dealer.plus(f.calls.len() as int),
            )
            &&& f.phase == Phase::Play ==> f.contract is Some && f.next_to_act == Some(
                if n == 0 {
                    f.contract->0.declarer.next()
                } else if n % 4 == 0 {
                    f.completed_tricks.last().2
                } else {
                    f.played.last().0.next()
                },
            )
            &&& f.phase == Phase::Complete ==> f.next_to_act is None
            &&& f.contract is Some ==> {
                &&& f.completed_tricks.len() == n / 4
                &&& f.current_trick matches Some((_, plays)) ==> plays.len() == n % 4
                &&& f.current_trick is None ==> n % 4 == 0
                &&& f.phase == Phase::Complete <==> f.completed_tricks.len() == 13
            }
        }),
{
    reveal(fold_of);
    let f = fold_of(dealer, log);
    let n = played_of(log).len() as int;
    if f.contract is Some && n % 4 != 0 {
        assert(played_of(log).subrange(4 * (n / 4), n).last() == played_of(log).last());
    }
    if f.contract is Some && n > 0 && n % 4 == 0 {
        assert(f.completed_tricks.last() == f.completed_tricks[n / 4 - 1]);
    }
}

/// A call is taken exactly in the auction, from the seat on turn, if it is legal;
/// what is wrong with any other is said, the phase first and the turn second.
pub proof fn law_refused_calls(board: BoardView, log: Seq<Action>, seat: Direction, call: Call)
    ensures
        ({
            let f = fold_of(board.dealer, log);
            let r = rejection(board, log, Action::Call { seat, call });
            &&& r is None <==> f.phase == Phase::Bidding && f.next_to_act == Some(seat)
                && auction::legal(f.calls, call)
            &&& r == Some(ActionError::AuctionOver) <==> f.phase != Phase::Bidding
            &&& r == Some(ActionError::NotTurnToCall(seat)) <==> f.phase == Phase::Bidding
                && f.next_to_act != Some(seat)
            &&& r == Some(ActionError::IllegalCall(call)) <==> f.phase == Phase::Bidding
                && f.next_to_act == Some(seat) && !auction::legal(f.calls, call)
        }),
{
}

/// A card is taken exactly in the play, from the seat on turn, if that seat was
/// dealt it, has not played it, and follows suit with it or holds none of the suit
/// led; what is wrong with any other is said, the phase first and the turn second.
pub proof fn law_refused_cards(board: BoardView, log: Seq<Action>, seat: Direction, card: Card)
    ensures
        ({
            let f = fold_of(board.dealer, log);
            let r = rejection(board, log, Action::Play { seat, card });
            let left = unplayed(board.deal.hand(seat), f.played, seat);
            let due = f.phase == Phase::Play && f.next_to_act == Some(seat);
            &&& r == Some(ActionError::NotInPlay) <==> f.phase != Phase::Play
            &&& r == Some(ActionError::NotTurnToPlay(seat)) <==> f.phase == Phase::Play
                && f.next_to_act != Some(seat)
            &&& r == Some(ActionError::IllegalCard(card)) ==> due
            &&& r is None ==> due && left.contains(card)
            &&& due && !left.contains(card) ==> r == Some(ActionError::IllegalCard(card))
            &&& due && left.contains(card) && f.current_trick is None ==> r is None
            &&& f.current_trick matches Some((leader, plays)) ==> (due && left.contains(card)
                && plays.len() > 0 ==> (r is None <==> (card.suit == plays[0].1.suit || forall|
                other: Card,
            |
                left.contains(other) ==> (#[trigger] other.suit) != plays[0].1.suit)))
        }),
{
    let f = fold_of(board.dealer, log);
    let left = unplayed(board.deal.hand(seat), f.played, seat);
    play::law_follow_suit(left, lead_suit_of(f.current_trick), card);
}

/// Each refusal has its own words; they name the seat, the call or the card.
pub proof fn law_refusal_words(e: ActionError, call_text: Seq<char>)
    ensures
        e == ActionError::AuctionOver ==> e.words(call_text) == "auction is over"@,
        e == ActionError::NotInPlay ==> e.words(call_text) == "not in the play phase"@,
        e == ActionError::UndoForward ==> e.words(call_text) == "cannot undo forward"@,
        e matches ActionError::NotTurnToCall(seat) ==> e.words(call_text) == "not "@
            + seat.spec_name() + "'s turn to call"@,
        e matches ActionError::NotTurnToPlay(seat) ==> e.words(call_text) == "not "@
            + seat.spec_name() + "'s turn to play"@,
        e is IllegalCall ==> e.words(call_text) == "illegal call "@ + call_text,
        e matches ActionError::IllegalCard(card) ==> e.words(call_text) == "illegal card "@
            + card.code(),
{
}

/// The opening lead has been made exactly if there is a contract and a card has
/// been played.
pub proof fn law_opening_lead(dealer: Direction, log: Seq<Action>)
    ensures
        fold_of(dealer, log).opening_lead_made <==> fold_of(dealer, log).contract is Some && fold_of(
            dealer,
            log,
        ).played.len() > 0,
{
    reveal(fold_of);
}

} // verus!
