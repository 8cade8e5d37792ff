//! Auction legality and contract determination.
//!
//! The declarer is the *first* player of the declaring side to name the final
//! strain, not the player who made the last bid.

use vstd::prelude::*;

use crate::cards::{Call, Direction, Strain};
use crate::text::push_decimal;

verus! {

/// Order of the strains: C < D < H < S < NT.
pub open spec fn strain_order(s: Strain) -> int {
    match s {
        Strain::Clubs => 0,
        Strain::Diamonds => 1,
        Strain::Hearts => 2,
        Strain::Spades => 3,
        Strain::NoTrump => 4,
    }
}

/// Total order over bids: higher level wins; at equal level C < D < H < S < NT.
fn strain_rank(s: Strain) -> (r: u8)
    ensures
        r == strain_order(s),
{
    match s {
        Strain::Clubs => 0,
        Strain::Diamonds => 1,
        Strain::Hearts => 2,
        Strain::Spades => 3,
        Strain::NoTrump => 4,
    }
}

/// The seat that makes the call at `index` (0-based) in an auction dealt by `dealer`.
pub fn caller_at(dealer: Direction, index: usize) -> (r: Direction)
    ensures
        r == dealer.plus(index as int),
{
    dealer.rotate((index % 4) as u8)
}

/// The seat whose turn it is to call next.
pub fn next_caller(dealer: Direction, calls: &[Call]) -> (r: Direction)
    ensures
        r == dealer.plus(calls@.len() as int),
{
    caller_at(dealer, calls.len())
}

/// An auction has ended: at least four calls, and the last three are passes.
pub open spec fn complete(calls: Seq<Call>) -> bool {
    &&& calls.len() >= 4
    &&& calls[calls.len() - 1] is Pass
    &&& calls[calls.len() - 2] is Pass
    &&& calls[calls.len() - 3] is Pass
}

/// True once the auction has ended: at least 4 calls and the last 3 are
/// passes (covers both a passed-out deal and 3 passes after a bid).
pub fn is_complete(calls: &[Call]) -> (r: bool)
    ensures
        r == complete(calls@),
{
    let n: usize = calls.len();
    n >= 4 && matches!(calls[n - 1], Call::Pass) && matches!(calls[n - 2], Call::Pass) && matches!(
        calls[n - 3],
        Call::Pass
    )
}

/// Position of the last bid, or -1.
pub open spec fn last_bid_index(calls: Seq<Call>) -> int
    decreases calls.len(),
{
    if calls.len() == 0 {
        -1
    } else if calls.last() is Bid {
        calls.len() - 1
    } else {
        last_bid_index(calls.drop_last())
    }
}

/// A bid, a double or a redouble.
pub open spec fn is_action(call: Call) -> bool {
    call is Bid || call is Double || call is Redouble
}

/// Position of the last bid, double or redouble, or -1.
pub open spec fn last_action_index(calls: Seq<Call>) -> int
    decreases calls.len(),
{
    if calls.len() == 0 {
        -1
    } else if is_action(calls.last()) {
        calls.len() - 1
    } else {
        last_action_index(calls.drop_last())
    }
}

/// The last bid is a bid, and no bid follows it.
proof fn lemma_last_bid(calls: Seq<Call>)
    ensures
        -1 <= last_bid_index(calls) < calls.len(),
        last_bid_index(calls) >= 0 ==> calls[last_bid_index(calls)] is Bid,
        forall|j: int| last_bid_index(calls) < j < calls.len() ==> !(#[trigger] calls[j] is Bid),
    decreases calls.len(),
{
    if calls.len() > 0 && !(calls.last() is Bid) {
        lemma_last_bid(calls.drop_last());
        assert(forall|j: int| 0 <= j < calls.len() - 1 ==> calls.drop_last()[j] == calls[j]);
    }
}

/// The last action is an action, and none follows it.
proof fn lemma_last_action(calls: Seq<Call>)
    ensures
        -1 <= last_action_index(calls) < calls.len(),
        last_action_index(calls) >= 0 ==> is_action(calls[last_action_index(calls)]),
        forall|j: int|
            last_action_index(calls) < j < calls.len() ==> !is_action(#[trigger] calls[j]),
    decreases calls.len(),
{
    if calls.len() > 0 && !is_action(calls.last()) {
        lemma_last_action(calls.drop_last());
        assert(forall|j: int| 0 <= j < calls.len() - 1 ==> calls.drop_last()[j] == calls[j]);
    }
}

/// A higher bid: a higher level, or the same level in a higher strain.
pub open spec fn outranks(a: Call, b: Call) -> bool {
    match (a, b) {
        (Call::Bid { level: al, strain: a_s }, Call::Bid { level: bl, strain: b_s }) => al > bl || (
        al == bl && strain_order(a_s) > strain_order(b_s)),
        _ => false,
    }
}

/// The calls at these two positions are made by opponents.
pub open spec fn opponents(i: int, j: int) -> bool {
    i % 2 != j % 2
}

/// Whether `call` may follow `calls`.
pub open spec fn legal(calls: Seq<Call>, call: Call) -> bool {
    let bid = last_bid_index(calls);
    let last = last_action_index(calls);
    !complete(calls) && match call {
        Call::Pass => true,
        Call::Bid { level, strain } => 1 <= level <= 7 && (bid < 0 || outranks(call, calls[bid])),
        Call::Double => last >= 0 && calls[last] is Bid && opponents(calls.len() as int, last),
        Call::Redouble => last >= 0 && calls[last] is Double && opponents(calls.len() as int, last),
        Call::Continue | Call::Blank => false,
    }
}

/// Whether `call` is legal as the next call. Teaching placeholders
/// (`Continue`/`Blank`) are never legal in live play.
pub fn is_legal(dealer: Direction, calls: &[Call], call: &Call) -> (r: bool)
    ensures
        r == legal(calls@, *call),
{
    if is_complete(calls) {
        return false;
    }
    match call {
        Call::Pass => true,
        Call::Bid { level, strain } => {
            if *level < 1 || *level > 7 {
                return false;
            }
            match last_bid(calls) {
                None => true,
                Some((last_level, last_strain, _)) => *level > last_level || (*level == last_level
                    && strain_rank(*strain) > strain_rank(last_strain)),
            }
        },
        Call::Double => match last_action(calls) {
            Some((idx, LastAction::Bid)) => is_opponent(dealer, calls.len(), idx),
            _ => false,
        },
        Call::Redouble => match last_action(calls) {
            Some((idx, LastAction::Double)) => is_opponent(dealer, calls.len(), idx),
            _ => false,
        },
        Call::Continue | Call::Blank => false,
    }
}

/// The outcome of an auction: what is to be played, by whom.
#[derive(Clone, Copy, Debug, PartialEq, Eq, Structural)]
pub struct ContractOutcome {
    pub level: u8,
    pub strain: Strain,
    pub doubled: bool,
    pub redoubled: bool,
    pub declarer: Direction,
}

/// A bid in the given strain.
pub open spec fn names(call: Call, strain: Strain) -> bool {
    call matches Call::Bid { strain: s, .. } && s == strain
}

/// The first position at or after `from` at which the given side (the parity
/// of its positions) names the strain; the length if there is none.
pub open spec fn first_naming(calls: Seq<Call>, strain: Strain, side: int, from: int) -> int
    decreases calls.len() - from,
{
    if from >= calls.len() {
        calls.len() as int
    } else if from % 2 == side && names(calls[from], strain) {
        from
    } else {
        first_naming(calls, strain, side, from + 1)
    }
}

/// `first_naming` is a naming by that side, no later than any other one.
proof fn lemma_first_naming(calls: Seq<Call>, strain: Strain, side: int, from: int, known: int)
    requires
        0 <= from <= known < calls.len(),
        known % 2 == side,
        names(calls[known], strain),
    ensures
        from <= first_naming(calls, strain, side, from) <= known,
        first_naming(calls, strain, side, from) % 2 == side,
        names(calls[first_naming(calls, strain, side, from)], strain),
        forall|j: int|
            #![trigger calls[j]]
            from <= j < first_naming(calls, strain, side, from) && j % 2 == side ==> !names(
                calls[j],
                strain,
            ),
    decreases known - from,
{
    if !(from % 2 == side && names(calls[from], strain)) {
        lemma_first_naming(calls, strain, side, from + 1, known);
    }
}

/// The contract that an auction has ended in: the last bid, doubled or
/// redoubled by the last action, declared by the first of the declaring side
/// to have named the strain.
pub open spec fn contract_of(dealer: Direction, calls: Seq<Call>) -> Option<ContractOutcome> {
    let bid = last_bid_index(calls);
    let last = last_action_index(calls);
    if !complete(calls) || bid < 0 {
        None
    } else {
        Some(
            ContractOutcome {
                level: calls[bid]->level,
                strain: calls[bid]->strain,
                doubled: calls[last] is Double,
                redoubled: calls[last] is Redouble,
                declarer: dealer.plus(first_naming(calls, calls[bid]->strain, bid % 2, 0)),
            },
        )
    }
}

/// The final contract with the *correct* declarer: the first player of the
/// declaring side (in call order) to name the final strain. Returns `None`
/// while the auction is incomplete or if the deal passed out.
pub fn contract(dealer: Direction, calls: &[Call]) -> (r: Option<ContractOutcome>)
    ensures
        r == contract_of(dealer, calls@),
{
    if !is_complete(calls) {
        return None;
    }
    let n: usize = calls.len();
    let (level, strain, last_bidder_idx) = match last_bid(calls) {
        None => {
            return None;
        },
        Some(bid) => bid,
    };
    let bidding_side_parity: usize = last_bidder_idx % 2;

    // Doubled state: scan calls after the final bid.
    let mut doubled = false;
    let mut redoubled = false;
    let mut i: usize = last_bidder_idx + 1;
    proof {
        lemma_last_bid(calls@);
        assert(last_action_index(calls@.subrange(0, i as int)) == last_bidder_idx) by {
            assert(calls@.subrange(0, i as int).last() == calls@[last_bidder_idx as int]);
        }
    }
    while i < n
        invariant
            n == calls.len(),
            last_bidder_idx < i <= calls.len(),
            last_bid_index(calls@) == last_bidder_idx,
            doubled == (calls@[last_action_index(calls@.subrange(0, i as int))] is Double),
            redoubled == (calls@[last_action_index(calls@.subrange(0, i as int))] is Redouble),
        decreases calls.len() - i,
    {
        proof {
            let longer = calls@.subrange(0, i + 1);
            assert(longer.drop_last() =~= calls@.subrange(0, i as int));
            assert(longer.last() == calls@[i as int]);
            lemma_last_bid(calls@);
        }
        match calls[i] {
            Call::Double => {
                doubled = true;
                redoubled = false;
            },
            Call::Redouble => {
                doubled = false;
                redoubled = true;
            },
            _ => {},
        }
        i = i + 1;
    }
    assert(calls@.subrange(0, calls.len() as int) =~= calls@);

    // Declarer: first caller on the declaring side who bid this strain.
    let mut declarer_idx: usize = 0;
    proof {
        lemma_first_naming(
            calls@,
            strain,
            bidding_side_parity as int,
            0,
            last_bidder_idx as int,
        );
    }
    while declarer_idx < last_bidder_idx && !(declarer_idx % 2 == bidding_side_parity && bids_strain(
        calls[declarer_idx],
        strain,
    ))
        invariant
            declarer_idx <= last_bidder_idx < calls.len(),
            first_naming(calls@, strain, bidding_side_parity as int, 0) == first_naming(
                calls@,
                strain,
                bidding_side_parity as int,
                declarer_idx as int,
            ),
        decreases last_bidder_idx - declarer_idx,
    {
        declarer_idx = declarer_idx + 1;
    }
    Some(
        ContractOutcome {
            level,
            strain,
            doubled,
            redoubled,
            declarer: caller_at(dealer, declarer_idx),
        },
    )
}

/// Whether a call is a bid in the given strain.
fn bids_strain(call: Call, strain: Strain) -> (r: bool)
    ensures
        r == names(call, strain),
{
    match call {
        Call::Bid { strain: s, .. } => s == strain,
        _ => false,
    }
}

impl ContractOutcome {
    /// The text of a contract: level, strain letter, and `X` or `XX`.
    pub open spec fn text(self) -> Seq<char> {
        crate::text::decimal(self.level as nat).push(self.strain.to_char()) + (if self.redoubled {
            seq!['X', 'X']
        } else if self.doubled {
            seq!['X']
        } else {
            seq![]
        })
    }

    /// PBN-style string, e.g. "4S", "3NX", "6NXX".
    pub fn to_pbn(&self) -> (r: String)
        ensures
            r@ == self.text(),
    {
        let mut s = String::new();
        push_decimal(&mut s, self.level as u128);
        s.push(self.strain.to_char());
        if self.redoubled {
            s.push('X');
            s.push('X');
        } else if self.doubled {
            s.push('X');
        }
        s
    }

    pub open spec fn leader(self) -> Direction {
        self.declarer.next()
    }

    pub open spec fn spec_dummy(self) -> Direction {
        self.declarer.partner()
    }

    /// The opening leader (left of declarer).
    pub fn opening_leader(&self) -> (r: Direction)
        ensures
            r == self.leader(),
    {
        self.declarer.next()
    }

    /// The dummy (declarer's partner).
    pub fn dummy(&self) -> (r: Direction)
        ensures
            r == self.spec_dummy(),
    {
        self.declarer.partner()
    }
}

/// What the last action was, where it can be doubled or redoubled.
#[derive(Clone, Copy, Debug, PartialEq, Eq, Structural)]
enum LastAction {
    Bid,
    Double,
}

/// Index and kind of the last non-pass call, if any; `None` after a redouble
/// too, which nothing but passes and bids may follow.
fn last_action(calls: &[Call]) -> (r: Option<(usize, LastAction)>)
    ensures
        match r {
            Some((i, LastAction::Bid)) => last_action_index(calls@) == i && calls@[i as int] is Bid,
            Some((i, LastAction::Double)) => last_action_index(calls@) == i
                && calls@[i as int] is Double,
            None => last_action_index(calls@) < 0 || calls@[last_action_index(
                calls@,
            )] is Redouble,
        },
{
    let mut i: usize = calls.len();
    assert(calls@.subrange(0, i as int) =~= calls@);
    while i > 0
        invariant
            i <= calls.len(),
            last_action_index(calls@) == last_action_index(calls@.subrange(0, i as int)),
        decreases i,
    {
        proof {
            let head = calls@.subrange(0, i as int);
            assert(head.last() == calls@[i - 1]);
            assert(head.drop_last() =~= calls@.subrange(0, i - 1));
        }
        i = i - 1;
        match calls[i] {
            Call::Bid { .. } => {
                return Some((i, LastAction::Bid));
            },
            Call::Double => {
                return Some((i, LastAction::Double));
            },
            Call::Redouble => {
                return None;
            },
            Call::Pass | Call::Continue | Call::Blank => {},
        }
    }
    None
}

/// Level, strain, and call-index of the last bid, if any.
fn last_bid(calls: &[Call]) -> (r: Option<(u8, Strain, usize)>)
    ensures
        match r {
            Some((level, strain, i)) => last_bid_index(calls@) == i && calls@[i as int]
                == (Call::Bid { level, strain }) && i < calls@.len(),
            None => last_bid_index(calls@) < 0,
        },
{
    let mut i: usize = calls.len();
    assert(calls@.subrange(0, i as int) =~= calls@);
    while i > 0
        invariant
            i <= calls.len(),
            last_bid_index(calls@) == last_bid_index(calls@.subrange(0, i as int)),
        decreases i,
    {
        proof {
            let head = calls@.subrange(0, i as int);
            assert(head.last() == calls@[i - 1]);
            assert(head.drop_last() =~= calls@.subrange(0, i - 1));
        }
        i = i - 1;
        if let Call::Bid { level, strain } = calls[i] {
            return Some((level, strain, i));
        }
    }
    None
}

/// Whether the call at `target_idx` was made by an opponent of the player
/// who calls at `current_idx`. Same-parity indices are partners.
fn is_opponent(_dealer: Direction, current_idx: usize, target_idx: usize) -> (r: bool)
    ensures
        r == opponents(current_idx as int, target_idx as int),
{
    current_idx % 2 != target_idx % 2
}

/// An auction in which every call was legal when it was made.
pub open spec fn legal_auction(calls: Seq<Call>) -> bool {
    forall|i: int| 0 <= i < calls.len() ==> legal(calls.subrange(0, i), #[trigger] calls[i])
}

/// Until the auction ends, a pass is legal and a placeholder is not; once it
/// has ended, nothing is.
pub proof fn law_pass_until_complete(calls: Seq<Call>, call: Call)
    ensures
        legal(calls, Call::Pass) == !complete(calls),
        complete(calls) ==> !legal(calls, call),
        !legal(calls, Call::Continue),
        !legal(calls, Call::Blank),
{
}

/// Only an opponent's call is doubled or redoubled, and only while nothing but
/// passes has followed it.
pub proof fn law_double_answers_opponents(calls: Seq<Call>, call: Call)
    requires
        legal(calls, call),
        call is Double || call is Redouble,
    ensures
        exists|i: int|
            {
                &&& 0 <= i < calls.len()
                &&& (call is Double ==> #[trigger] calls[i] is Bid)
                &&& (call is Redouble ==> calls[i] is Double)
                &&& opponents(i, calls.len() as int)
                &&& forall|j: int| i < j < calls.len() ==> !is_action(#[trigger] calls[j])
            },
{
    lemma_last_action(calls);
    assert(is_action(calls[last_action_index(calls)]));
}

/// What precedes the last call of a legal auction is a legal auction, and the
/// last call is legal after it.
proof fn lemma_legal_prefix(calls: Seq<Call>, n: int)
    requires
        legal_auction(calls),
        0 <= n <= calls.len(),
    ensures
        legal_auction(calls.subrange(0, n)),
{
    let head = calls.subrange(0, n);
    assert forall|i: int| 0 <= i < head.len() implies legal(
        head.subrange(0, i),
        #[trigger] head[i],
    ) by {
        assert(head.subrange(0, i) =~= calls.subrange(0, i));
        assert(calls[i] == head[i]);
    }
}

/// In a legal auction every bid outranks all bids before it.
pub proof fn law_bids_ascend(calls: Seq<Call>, i: int, j: int)
    requires
        legal_auction(calls),
        0 <= i < j < calls.len(),
        calls[i] is Bid,
        calls[j] is Bid,
    ensures
        outranks(calls[j], calls[i]),
    decreases j,
{
    let before = calls.subrange(0, j);
    assert(legal(before, calls[j]));
    lemma_last_bid(before);
    let k = last_bid_index(before);
    assert(before[i] == calls[i]);
    assert(k >= i);
    assert(before[k] == calls[k]);
    if k > i {
        law_bids_ascend(calls, i, k);
    }
}

/// A contract comes out of an auction exactly when it has ended and somebody
/// has bid. Its declarer named the strain, before any partner did; it is not
/// both doubled and redoubled.
pub proof fn law_contract(dealer: Direction, calls: Seq<Call>)
    ensures
        contract_of(dealer, calls) is Some <==> complete(calls) && exists|i: int|
            0 <= i < calls.len() && #[trigger] calls[i] is Bid,
        contract_of(dealer, calls) matches Some(c) ==> {
            &&& !(c.doubled && c.redoubled)
            &&& exists|d: int|
                {
                    &&& 0 <= d < calls.len()
                    &&& c.declarer == #[trigger] dealer.plus(d)
                    &&& names(calls[d], c.strain)
                    &&& forall|j: int|
                        0 <= j < d && !opponents(d, j) ==> !names(#[trigger] calls[j], c.strain)
                }
        },
{
    lemma_last_bid(calls);
    let bid = last_bid_index(calls);
    if complete(calls) && bid >= 0 {
        lemma_first_naming(calls, calls[bid]->strain, bid % 2, 0, bid);
        let d = first_naming(calls, calls[bid]->strain, bid % 2, 0);
        let c = contract_of(dealer, calls)->0;
        assert(c.declarer == dealer.plus(d));
        assert(calls[bid] is Bid);
    }
}

/// The final contract is the highest bid of a legal auction.
pub proof fn law_contract_is_highest_bid(dealer: Direction, calls: Seq<Call>, i: int)
    requires
        legal_auction(calls),
        contract_of(dealer, calls) is Some,
        0 <= i < calls.len(),
        calls[i] is Bid,
    ensures
        ({
            let c = contract_of(dealer, calls)->0;
            let final_bid = Call::Bid { level: c.level, strain: c.strain };
            (final_bid == calls[i] || outranks(final_bid, calls[i])) && 1 <= c.level <= 7
        }),
{
    lemma_last_bid(calls);
    let bid = last_bid_index(calls);
    assert(bid >= i);
    assert(legal(calls.subrange(0, bid), calls[bid]));
    if bid > i {
        law_bids_ascend(calls, i, bid);
    }
}

/// The bid that stands: it was made, and no bid follows it.
pub open spec fn bid_last(calls: Seq<Call>, level: u8, strain: Strain) -> bool {
    exists|i: int|
        {
            &&& 0 <= i < calls.len()
            &&& #[trigger] calls[i] == (Call::Bid { level, strain })
            &&& forall|j: int| i < j < calls.len() ==> !(#[trigger] calls[j] is Bid)
        }
}

/// The bid that stands is the one that the next bid has to beat.
proof fn lemma_bid_last(calls: Seq<Call>, level: u8, strain: Strain)
    requires
        bid_last(calls, level, strain),
    ensures
        last_bid_index(calls) >= 0,
        calls[last_bid_index(calls)] == (Call::Bid { level, strain }),
{
    lemma_last_bid(calls);
    let i = choose|i: int|
        {
            &&& 0 <= i < calls.len()
            &&& #[trigger] calls[i] == (Call::Bid { level, strain })
            &&& forall|j: int| i < j < calls.len() ==> !(#[trigger] calls[j] is Bid)
        };
    assert(calls[i] is Bid);
    assert(last_bid_index(calls) == i);
}

/// Over a bid, the strains that may be bid at the same level are those after
/// it in clubs, diamonds, hearts, spades, notrump.
pub proof fn law_strains_ascend(calls: Seq<Call>, level: u8)
    requires
        !complete(calls),
        1 <= level <= 7,
    ensures
        bid_last(calls, level, Strain::Clubs) ==> {
            &&& !legal(calls, (Call::Bid { level, strain: Strain::Clubs }))
            &&& legal(calls, (Call::Bid { level, strain: Strain::Diamonds }))
            &&& legal(calls, (Call::Bid { level, strain: Strain::Hearts }))
            &&& legal(calls, (Call::Bid { level, strain: Strain::Spades }))
            &&& legal(calls, (Call::Bid { level, strain: Strain::NoTrump }))
        },
        bid_last(calls, level, Strain::Diamonds) ==> {
            &&& !legal(calls, (Call::Bid { level, strain: Strain::Clubs }))
            &&& !legal(calls, (Call::Bid { level, strain: Strain::Diamonds }))
            &&& legal(calls, (Call::Bid { level, strain: Strain::Hearts }))
            &&& legal(calls, (Call::Bid { level, strain: Strain::Spades }))
            &&& legal(calls, (Call::Bid { level, strain: Strain::NoTrump }))
        },
        bid_last(calls, level, Strain::Hearts) ==> {
            &&& !legal(calls, (Call::Bid { level, strain: Strain::Clubs }))
            &&& !legal(calls, (Call::Bid { level, strain: Strain::Diamonds }))
            &&& !legal(calls, (Call::Bid { level, strain: Strain::Hearts }))
            &&& legal(calls, (Call::Bid { level, strain: Strain::Spades }))
            &&& legal(calls, (Call::Bid { level, strain: Strain::NoTrump }))
        },
        bid_last(calls, level, Strain::Spades) ==> {
            &&& !legal(calls, (Call::Bid { level, strain: Strain::Clubs }))
            &&& !legal(calls, (Call::Bid { level, strain: Strain::Diamonds }))
            &&& !legal(calls, (Call::Bid { level, strain: Strain::Hearts }))
            &&& !legal(calls, (Call::Bid { level, strain: Strain::Spades }))
            &&& legal(calls, (Call::Bid { level, strain: Strain::NoTrump }))
        },
        bid_last(calls, level, Strain::NoTrump) ==> {
            &&& !legal(calls, (Call::Bid { level, strain: Strain::Clubs }))
            &&& !legal(calls, (Call::Bid { level, strain: Strain::Diamonds }))
            &&& !legal(calls, (Call::Bid { level, strain: Strain::Hearts }))
            &&& !legal(calls, (Call::Bid { level, strain: Strain::Spades }))
            &&& !legal(calls, (Call::Bid { level, strain: Strain::NoTrump }))
        },
{
    if bid_last(calls, level, Strain::Clubs) {
        lemma_bid_last(calls, level, Strain::Clubs);
    }
    if bid_last(calls, level, Strain::Diamonds) {
        lemma_bid_last(calls, level, Strain::Diamonds);
    }
    if bid_last(calls, level, Strain::Hearts) {
        lemma_bid_last(calls, level, Strain::Hearts);
    }
    if bid_last(calls, level, Strain::Spades) {
        lemma_bid_last(calls, level, Strain::Spades);
    }
    if bid_last(calls, level, Strain::NoTrump) {
        lemma_bid_last(calls, level, Strain::NoTrump);
    }
}

/// Over a bid, every strain may be bid at a higher level, up to seven, and none
/// at a lower one; with no bid before it, a bid needs a level of one to seven.
pub proof fn law_levels_ascend(
    calls: Seq<Call>,
    level: u8,
    strain: Strain,
    new_level: u8,
    new_strain: Strain,
)
    requires
        !complete(calls),
    ensures
        bid_last(calls, level, strain) && new_level > level ==> (legal(
            calls,
            (Call::Bid { level: new_level, strain: new_strain }),
        ) <==> 1 <= new_level <= 7),
        bid_last(calls, level, strain) && new_level < level ==> !legal(
            calls,
            (Call::Bid { level: new_level, strain: new_strain }),
        ),
        (forall|i: int| 0 <= i < calls.len() ==> !(#[trigger] calls[i] is Bid)) ==> (legal(
            calls,
            (Call::Bid { level: new_level, strain: new_strain }),
        ) <==> 1 <= new_level <= 7),
{
    lemma_last_bid(calls);
    if bid_last(calls, level, strain) {
        lemma_bid_last(calls, level, strain);
    }
}

/// While the auction lasts, a double is legal exactly over an opponent's bid,
/// and a redouble exactly over an opponent's double, with nothing but passes
/// since.
pub proof fn law_doubles(calls: Seq<Call>)
    requires
        !complete(calls),
    ensures
        legal(calls, Call::Double) <==> exists|i: int|
            {
                &&& 0 <= i < calls.len()
                &&& #[trigger] calls[i] is Bid
                &&& (calls.len() - i) % 2 == 1
                &&& forall|j: int| i < j < calls.len() ==> !is_action(#[trigger] calls[j])
            },
        legal(calls, Call::Redouble) <==> exists|i: int|
            {
                &&& 0 <= i < calls.len()
                &&& #[trigger] calls[i] is Double
                &&& (calls.len() - i) % 2 == 1
                &&& forall|j: int| i < j < calls.len() ==> !is_action(#[trigger] calls[j])
            },
{
    lemma_last_action(calls);
    let last = last_action_index(calls);
    assert forall|i: int|
        0 <= i < calls.len() && is_action(#[trigger] calls[i]) && (forall|j: int|
            i < j < calls.len() ==> !is_action(#[trigger] calls[j])) implies i == last by {}
    if last >= 0 {
        assert(opponents(calls.len() as int, last) <==> (calls.len() - last) % 2 == 1);
        assert(is_action(calls[last]));
    }
}

/// The contract is the last bid made, declared by a player of the side that
/// made it who had named the strain before their partner did; it is doubled or
/// redoubled exactly if that is what the last call other than passes did to it.
pub proof fn law_contract_is_last_bid(dealer: Direction, calls: Seq<Call>, bid: int, last: int)
    requires
        complete(calls),
        0 <= bid <= last < calls.len(),
        calls[bid] is Bid,
        forall|j: int| bid < j < calls.len() ==> !(#[trigger] calls[j] is Bid),
        is_action(calls[last]),
        forall|j: int| last < j < calls.len() ==> !is_action(#[trigger] calls[j]),
    ensures
        contract_of(dealer, calls) matches Some(c) && {
            &&& calls[bid] == (Call::Bid { level: c.level, strain: c.strain })
            &&& c.doubled <==> calls[last] is Double
            &&& c.redoubled <==> calls[last] is Redouble
            &&& c.declarer == dealer.plus(bid) || c.declarer == dealer.plus(bid).partner()
            &&& exists|d: int|
                {
                    &&& 0 <= d <= bid
                    &&& (bid - d) % 2 == 0
                    &&& c.declarer == #[trigger] dealer.plus(d)
                    &&& calls[d] matches Call::Bid { strain, .. } && strain == c.strain
                    &&& forall|j: int|
                        0 <= j < d && (bid - j) % 2 == 0 ==> !(#[trigger] calls[j] matches Call::Bid {
                            strain,
                            ..
                        } && strain == c.strain)
                }
        },
{
    lemma_last_bid(calls);
    lemma_last_action(calls);
    assert(last_bid_index(calls) == bid);
    assert(last_action_index(calls) == last);
    let strain = calls[bid]->strain;
    lemma_first_naming(calls, strain, bid % 2, 0, bid);
    let d = first_naming(calls, strain, bid % 2, 0);
    assert((bid - d) % 2 == 0);
    assert(names(calls[d], strain));
    assert forall|j: int|
        0 <= j < d && (bid - j) % 2 == 0 implies !(#[trigger] calls[j] matches Call::Bid {
        strain: s,
        ..
    } && s == strain) by {
        assert(j % 2 == bid % 2);
        assert(!names(calls[j], strain));
    }
    assert((d - bid) % 4 == 0 || (d - bid) % 4 == 2);
    crate::cards::law_plus_adds(dealer, bid, d - bid);
    crate::cards::law_plus_adds(dealer, bid, 2);
}

/// The opening leader sits to declarer's left, dummy next, across from declarer.
pub proof fn law_dummy_is_across(c: ContractOutcome)
    ensures
        c.leader() == c.declarer.next(),
        c.spec_dummy() == c.leader().next(),
        c.spec_dummy().next().next() == c.declarer,
        c.spec_dummy().is_ns() == c.declarer.is_ns(),
        c.leader().is_ns() != c.declarer.is_ns(),
{
    crate::cards::law_plus_adds(c.declarer, 1, 1);
    crate::cards::law_table_is_round(c.declarer);
}

/// A contract is written as its level, its strain's letter, and an `X` for each
/// time it has been doubled.
pub proof fn law_contract_text(c: ContractOutcome)
    requires
        1 <= c.level <= 7,
        !(c.doubled && c.redoubled),
    ensures
        c.text().len() == (if c.redoubled {
            4int
        } else if c.doubled {
            3int
        } else {
            2int
        }),
        c.text()[0] as int == '0' as int + c.level,
        c.text()[1] == c.strain.to_char(),
        forall|i: int| 2 <= i < c.text().len() ==> c.text()[i] == 'X',
        c.leader() == c.declarer.next(),
{
}

} // verus!
