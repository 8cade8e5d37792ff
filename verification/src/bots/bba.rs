//! BBA bidding with the prefix-cache flow.
//!
//! A request carries the full deal ("N:"-first PBN), dealer, vulnerability
//! ("Both", not PBN's "All"), MP scoring, and explicit convention cards;
//! optionally the calls made so far, in BBA's own token format. The response is
//! the *complete* predicted auction from call 1, including any prefix.
//!
//! Request the whole predicted auction at the first bot call of a board and
//! serve subsequent bot calls from it while the actual calls remain a prefix of
//! the prediction. Any divergence — a human bidding something else, or an undo
//! rewinding onto a different line — fails the prefix check and triggers a
//! re-request. The cache is validated against the folded auction on every use
//! and never trusted blindly, so undo needs no special-casing.

use vstd::prelude::*;
use vstd::string::*;

use crate::cards::{
    law_deal_text, law_hand_text, law_seat_letters, section, suit_section, Call, Card, Direction,
    Strain, Vulnerability,
};
use crate::rooms::cache_view;
use crate::seating::joined;
use crate::table::{BoardSetup, BoardView};
use crate::text::{decimal, push_decimal, trim_end_char, without_trailing};

verus! {

/// Per-call budget in milliseconds; a slow BBA falls back to Pass.
pub const TIMEOUT_MS: u64 = 8_000;

/// A call in BBA's token format.
pub open spec fn bba_token(c: Call) -> Seq<char> {
    match c {
        Call::Pass => "Pass"@,
        Call::Double => "X"@,
        Call::Redouble => "XX"@,
        Call::Bid { level, strain } => if strain == Strain::NoTrump {
            decimal(level as nat) + "NT"@
        } else {
            decimal(level as nat).push(strain.to_char())
        },
        Call::Continue | Call::Blank => seq![],
    }
}

/// A call in BBA's token format: "Pass", "X", "XX", "1NT" (not PBN's "1N").
pub fn call_to_bba(c: &Call) -> (r: String)
    ensures
        r@ == bba_token(*c),
{
    match c {
        Call::Pass => "Pass".to_owned(),
        Call::Double => "X".to_owned(),
        Call::Redouble => "XX".to_owned(),
        Call::Bid { level, strain } => {
            let mut s = String::new();
            push_decimal(&mut s, *level as u128);
            assert(s@ =~= decimal(*level as nat));
            if *strain == Strain::NoTrump {
                s.append("NT");
            } else {
                s.push(strain.to_char());
            }
            s
        },
        Call::Continue | Call::Blank => {
            let s = String::new();
            assert(s@ =~= Seq::<char>::empty());
            s
        },
    }
}

pub open spec fn bba_vulnerability(v: Vulnerability) -> Seq<char> {
    match v {
        Vulnerability::Neither => "None"@,
        Vulnerability::NorthSouth => "NS"@,
        Vulnerability::EastWest => "EW"@,
        Vulnerability::Both => "Both"@,
    }
}

/// BBA vulnerability token: PBN's "All" is "Both" to BBA.
pub fn vul_to_bba(v: Vulnerability) -> (r: &'static str)
    ensures
        r@ == bba_vulnerability(v),
{
    match v {
        Vulnerability::Neither => "None",
        Vulnerability::NorthSouth => "NS",
        Vulnerability::EastWest => "EW",
        Vulnerability::Both => "Both",
    }
}

/// The word for a board on which one pair alone is vulnerable holds the letters
/// of the seats that are, and no other seat's; else it says "None" or "Both".
pub proof fn law_bba_vulnerability(v: Vulnerability, seat: Direction)
    ensures
        v is NorthSouth || v is EastWest ==> (bba_vulnerability(v).contains(seat.to_char())
            <==> v.is_vulnerable(seat)),
        (forall|d: Direction| !#[trigger] v.is_vulnerable(d)) <==> bba_vulnerability(v) == "None"@,
        (forall|d: Direction| #[trigger] v.is_vulnerable(d)) <==> bba_vulnerability(v) == "Both"@,
{
    reveal_strlit("None");
    reveal_strlit("NS");
    reveal_strlit("EW");
    reveal_strlit("Both");
    assert("NS"@[0] == 'N' && "NS"@[1] == 'S' && "NS"@.len() == 2);
    assert("EW"@[0] == 'E' && "EW"@[1] == 'W' && "EW"@.len() == 2);
    assert("None"@[0] == 'N' && "Both"@[0] == 'B');
    assert("None"@.len() == 4 && "Both"@.len() == 4);
    assert(v.is_vulnerable(Direction::North) == (v is NorthSouth || v is Both));
    assert(v.is_vulnerable(Direction::East) == (v is EastWest || v is Both));
}

/// A bid is written as its level and then its strain's letter, which in notrump
/// is followed by a `T`; no two calls that can be made are written alike.
pub proof fn law_bba_tokens(level: u8, strain: Strain, a: Call, b: Call)
    requires
        1 <= level <= 7,
        a matches Call::Bid { level: la, .. } ==> 1 <= la <= 7,
        b matches Call::Bid { level: lb, .. } ==> 1 <= lb <= 7,
        !(a is Continue || a is Blank || b is Continue || b is Blank),
    ensures
        ({
            let token = bba_token(Call::Bid { level, strain });
            &&& token.len() == (if strain is NoTrump { 3int } else { 2int })
            &&& token[0] as int == '0' as int + level
            &&& token[1] == strain.to_char()
            &&& strain is NoTrump ==> token[2] == 'T'
        }),
        bba_token(a) == bba_token(b) ==> a == b,
        a is Pass <==> bba_token(a)[0] == 'P',
        a is Double <==> bba_token(a) == seq!['X'],
        a is Redouble <==> bba_token(a) == seq!['X', 'X'],
{
    lemma_bid_token(level, strain);
    reveal_strlit("Pass");
    reveal_strlit("X");
    reveal_strlit("XX");
    assert("Pass"@[0] == 'P' && "X"@[0] == 'X' && "XX"@[0] == 'X');
    assert("Pass"@.len() == 4 && "X"@.len() == 1 && "XX"@.len() == 2);
    assert("X"@ =~= seq!['X'] && "XX"@ =~= seq!['X', 'X']);
    if let Call::Bid { level: la, strain: sa } = a {
        lemma_bid_token(la, sa);
    }
    if let Call::Bid { level: lb, strain: sb } = b {
        lemma_bid_token(lb, sb);
    }
}

/// A bid's characters.
proof fn lemma_bid_token(level: u8, strain: Strain)
    requires
        1 <= level <= 7,
    ensures
        ({
            let token = bba_token(Call::Bid { level, strain });
            &&& token.len() == (if strain is NoTrump { 3int } else { 2int })
            &&& token[0] as int == '0' as int + level
            &&& token[1] == strain.to_char()
            &&& strain is NoTrump ==> token[2] == 'T'
        }),
{
    reveal_strlit("NT");
    assert("NT"@.len() == 2 && "NT"@[0] == 'N' && "NT"@[1] == 'T');
}

/// A request for a predicted auction.
#[derive(Debug)]
pub struct BbaRequest {
    pub pbn: String,
    pub dealer: char,
    pub vulnerability: String,
    pub scoring: String,
    /// The convention card of North-South.
    pub ns: String,
    /// The convention card of East-West.
    pub ew: String,
    /// The calls made so far; absent if there are none.
    pub auction_prefix: Option<Vec<String>>,
}

/// Whether a request is the one about a board and the calls made on it so far.
pub open spec fn asks_about(r: BbaRequest, board: BoardView, prefix: Seq<Call>) -> bool {
    &&& r.pbn@ == board.deal.text()
    &&& r.dealer == board.dealer.to_char()
    &&& r.vulnerability@ == bba_vulnerability(board.vulnerable)
    &&& r.scoring@ == "MP"@ && r.ns@ == "21GF-DEFAULT"@ && r.ew@ == "21GF-DEFAULT"@
    &&& match r.auction_prefix {
        Some(tokens) => prefix.len() > 0 && tokens@.len() == prefix.len() && forall|i: int|
            0 <= i < prefix.len() ==> (#[trigger] tokens@[i])@ == bba_token(prefix[i]),
        None => prefix.len() == 0,
    }
}

/// A request tells the cards, the dealer and who is vulnerable, that the board is
/// scored by matchpoints, and the calls so far, in order, if there are any. Both
/// pairs play the same convention card.
pub proof fn law_request(
    r: BbaRequest,
    board: BoardView,
    prefix: Seq<Call>,
    card: Card,
    seat: Direction,
    i: int,
)
    requires
        asks_about(r, board, prefix),
        0 <= i < prefix.len(),
        !(prefix[i] is Continue || prefix[i] is Blank),
        prefix[i] matches Call::Bid { level, .. } ==> 1 <= level <= 7,
    ensures
        ({
            let hand = section(r.pbn@.subrange(2, r.pbn@.len() as int), ' ', seat.index());
            let part = section(hand, '.', suit_section(card.suit));
            part.contains(card.rank.to_char()) <==> board.deal.hand(seat).contains(card)
        }),
        Direction::named(r.dealer) == Some(board.dealer),
        board.vulnerable is NorthSouth || board.vulnerable is EastWest ==> (
        r.vulnerability@.contains(seat.to_char()) <==> board.vulnerable.is_vulnerable(seat)),
        r.scoring@ == "MP"@,
        r.ns@ == r.ew@,
        r.auction_prefix matches Some(tokens) && tokens@.len() == prefix.len(),
        prefix[i] is Pass <==> r.auction_prefix->0@[i]@[0] == 'P',
        prefix[i] is Double <==> r.auction_prefix->0@[i]@ == seq!['X'],
{
    law_deal_text(board.deal, seat);
    law_hand_text(board.deal.hand(seat), card);
    law_seat_letters(board.dealer, r.dealer);
    law_bba_vulnerability(board.vulnerable, seat);
    law_bba_tokens(1, Strain::Clubs, prefix[i], prefix[i]);
}

/// Without calls there is nothing to go on from.
pub proof fn law_first_request(r: BbaRequest, board: BoardView)
    requires
        asks_about(r, board, seq![]),
    ensures
        r.auction_prefix is None,
{
}

/// Request body for the auction generator.
pub fn build_body(board: &BoardSetup, prefix: &[Call]) -> (r: BbaRequest)
    ensures
        r.pbn@ == board@.deal.text(),
        r.dealer == board.dealer.to_char(),
        r.vulnerability@ == bba_vulnerability(board.vulnerable),
        r.scoring@ == "MP"@,
        r.ns@ == "21GF-DEFAULT"@,
        r.ew@ == "21GF-DEFAULT"@,
        match r.auction_prefix {
            Some(tokens) => prefix@.len() > 0 && tokens@.len() == prefix@.len() && forall|i: int|
                0 <= i < prefix@.len() ==> (#[trigger] tokens@[i])@ == bba_token(prefix@[i]),
            None => prefix@.len() == 0,
        },
        asks_about(r, board@, prefix@),
{
    let auction_prefix = if prefix.len() == 0 {
        None
    } else {
        let mut tokens: Vec<String> = Vec::new();
        let mut i: usize = 0;
        while i < prefix.len()
            invariant
                i <= prefix.len(),
                tokens@.len() == i,
                forall|j: int| 0 <= j < i ==> (#[trigger] tokens@[j])@ == bba_token(prefix@[j]),
            decreases prefix.len() - i,
        {
            tokens.push(call_to_bba(&prefix[i]));
            i = i + 1;
        }
        Some(tokens)
    };
    BbaRequest {
        pbn: board.deal.to_pbn(),
        dealer: board.dealer.to_char(),
        vulnerability: vul_to_bba(board.vulnerable).to_owned(),
        scoring: "MP".to_owned(),
        ns: "21GF-DEFAULT".to_owned(),
        ew: "21GF-DEFAULT".to_owned(),
        auction_prefix,
    }
}

/// Whether a list of calls starts with another.
fn starts_with(calls: &Vec<Call>, prefix: &[Call]) -> (r: bool)
    ensures
        r == prefix@.is_prefix_of(calls@),
{
    if calls.len() < prefix.len() {
        return false;
    }
    let mut i: usize = 0;
    while i < prefix.len()
        invariant
            i <= prefix@.len() <= calls@.len(),
            forall|j: int| 0 <= j < i ==> calls@[j] == prefix@[j],
        decreases prefix.len() - i,
    {
        if calls[i] != prefix[i] {
            assert(calls@.subrange(0, prefix@.len() as int)[i as int] != prefix@[i as int]);
            return false;
        }
        i = i + 1;
    }
    assert(prefix@ =~= calls@.subrange(0, prefix@.len() as int));
    true
}

/// What a predicted auction says comes after some calls: the next call, if the
/// calls are the start of the prediction and do not exhaust it.
pub open spec fn next_predicted(cache: Option<Seq<Call>>, calls: Seq<Call>) -> Option<Call> {
    match cache {
        Some(predicted) => if predicted.len() > calls.len() && calls.is_prefix_of(predicted) {
            Some(predicted[calls.len() as int])
        } else {
            None
        },
        None => None,
    }
}

/// Serve the next call from a cached predicted auction, iff the actual
/// `calls` so far are a strict prefix of the prediction. Returns None on
/// divergence (or an exhausted/absent cache) — caller re-requests.
pub fn continuation(cache: &Option<Vec<Call>>, calls: &[Call]) -> (r: Option<Call>)
    ensures
        r == next_predicted(cache_view(*cache), calls@),
{
    match cache {
        Some(predicted) => {
            if predicted.len() > calls.len() && starts_with(predicted, calls) {
                Some(predicted[calls.len()])
            } else {
                None
            }
        },
        None => None,
    }
}

/// As long as the actual calls follow the prediction, the prediction is served
/// call by call, after a rewind too; once they leave it, nothing is.
pub proof fn law_prediction_is_followed(predicted: Seq<Call>, calls: Seq<Call>, n: int)
    requires
        0 <= n < predicted.len(),
    ensures
        next_predicted(Some(predicted), predicted.subrange(0, n)) == Some(predicted[n]),
        next_predicted(Some(predicted), calls) is Some ==> calls.push(
            next_predicted(Some(predicted), calls)->0,
        ).is_prefix_of(predicted),
        !calls.is_prefix_of(predicted) ==> next_predicted(Some(predicted), calls) is None,
        next_predicted(Some(predicted), predicted) is None,
{
    assert(predicted.subrange(0, n).is_prefix_of(predicted));
    if next_predicted(Some(predicted), calls) is Some {
        let k = calls.len() as int;
        assert(calls.push(predicted[k]) =~= predicted.subrange(0, k + 1));
    }
}

/// What the auction generator answered.
#[derive(Debug)]
pub struct BbaReply {
    /// The HTTP status is a success.
    pub status_ok: bool,
    pub status: String,
    pub error: Option<String>,
    /// The answer's own success flag.
    pub success: bool,
    /// The predicted auction; a call that could not be read is `None`.
    pub auction: Option<Vec<Option<Call>>>,
}

/// The calls of a predicted auction, if all could be read.
pub open spec fn read_calls(auction: Seq<Option<Call>>) -> Option<Seq<Call>> {
    if forall|i: int| 0 <= i < auction.len() ==> (#[trigger] auction[i]) is Some {
        Some(Seq::new(auction.len(), |i: int| auction[i]->0))
    } else {
        None
    }
}

/// The words of an error, or others if there is none.
pub open spec fn error_or(error: Option<String>, other: Seq<char>) -> Seq<char> {
    match error {
        Some(e) => e@,
        None => other,
    }
}

/// The prediction that an answer carries, or what is wrong with it.
pub open spec fn prediction_of(reply: BbaReply, prefix: Seq<Call>) -> Result<Seq<Call>, Seq<char>> {
    if !reply.status_ok {
        Err("BBA: "@ + error_or(reply.error, reply.status@))
    } else if !reply.success {
        Err("BBA: "@ + error_or(reply.error, "success=false"@))
    } else {
        match reply.auction {
            None => Err("BBA: response has no auction array"@),
            Some(auction) => match read_calls(auction@) {
                None => Err("BBA: unparseable call in auction"@),
                Some(calls) => if prefix.is_prefix_of(calls) {
                    Ok(calls)
                } else {
                    Err("BBA: predicted auction does not extend the requested prefix"@)
                },
            },
        }
    }
}

fn error_words(error: &Option<String>, other: &str) -> (r: String)
    ensures
        r@ == "BBA: "@ + error_or(*error, other@),
{
    match error {
        Some(e) => joined("BBA: ", e.as_str()),
        None => joined("BBA: ", other),
    }
}

/// How BBA is reached.
#[derive(Debug)]
pub struct BbaClient {
    pub base: String,
}

impl BbaClient {
    pub fn new(base: &str) -> (r: BbaClient)
        ensures
            r.base@ == without_trailing(base@, '/'),
    {
        BbaClient { base: trim_end_char(base, '/') }
    }

    /// The full auction predicted for a board, continuing from `prefix`. The
    /// returned list always starts with `prefix` (a prediction that contradicts
    /// its own prefix would make the cache instantly stale and hammer BBA with
    /// a re-request per bot call).
    pub fn generate(&self, reply: &BbaReply, prefix: &[Call]) -> (r: Result<Vec<Call>, String>)
        ensures
            match r {
                Ok(calls) => prediction_of(*reply, prefix@) == Ok::<Seq<Call>, Seq<char>>(calls@),
                Err(e) => prediction_of(*reply, prefix@) == Err::<Seq<Call>, Seq<char>>(e@),
            },
    {
        if !reply.status_ok {
            return Err(error_words(&reply.error, reply.status.as_str()));
        }
        if !reply.success {
            return Err(error_words(&reply.error, "success=false"));
        }
        let auction = match &reply.auction {
            None => {
                return Err("BBA: response has no auction array".to_owned());
            },
            Some(auction) => auction,
        };
        let mut predicted: Vec<Call> = Vec::new();
        let mut i: usize = 0;
        while i < auction.len()
            invariant
                reply.status_ok,
                reply.success,
                reply.auction is Some,
                *auction == reply.auction->0,
                i <= auction.len(),
                predicted@.len() == i,
                forall|j: int|
                    0 <= j < i ==> (#[trigger] auction@[j]) is Some && predicted@[j]
                        == auction@[j]->0,
            decreases auction.len() - i,
        {
            match auction[i] {
                Some(call) => predicted.push(call),
                None => {
                    assert(auction@[i as int] is None);
                    return Err("BBA: unparseable call in auction".to_owned());
                },
            }
            i = i + 1;
        }
        assert(read_calls(auction@) == Some(predicted@)) by {
            assert(predicted@ =~= Seq::new(auction@.len(), |k: int| auction@[k]->0));
        }
        if !starts_with(&predicted, prefix) {
            return Err("BBA: predicted auction does not extend the requested prefix".to_owned());
        }
        Ok(predicted)
    }
}

/// An answer is taken exactly if it succeeded, twice over, names an auction all of
/// whose calls could be read, and goes on from the calls that were made; then its
/// calls are those, in order. An answer that failed is told in its own words.
pub proof fn law_prediction(reply: BbaReply, prefix: Seq<Call>)
    ensures
        ({
            let r = prediction_of(reply, prefix);
            let calls = reply.auction->0@;
            &&& r is Ok <==> {
                &&& reply.status_ok && reply.success && reply.auction is Some
                &&& forall|i: int| 0 <= i < calls.len() ==> (#[trigger] calls[i]) is Some
                &&& prefix.len() <= calls.len()
                &&& forall|i: int|
                    0 <= i < prefix.len() ==> #[trigger] calls[i] == Some(prefix[i])
            }
            &&& r matches Ok(predicted) ==> predicted.len() == calls.len() && forall|i: int|
                0 <= i < predicted.len() ==> Some(#[trigger] predicted[i]) == calls[i]
            &&& !(reply.status_ok && reply.success) && reply.error is Some ==> r == Err::<
                Seq<Call>,
                Seq<char>,
            >("BBA: "@ + reply.error->0@)
            &&& !reply.status_ok && reply.error is None ==> r == Err::<Seq<Call>, Seq<char>>(
                "BBA: "@ + reply.status@,
            )
        }),
{
    let calls = reply.auction->0@;
    if reply.auction is Some {
        if let Some(read) = read_calls(calls) {
            if prefix.is_prefix_of(read) {
                assert forall|i: int| 0 <= i < prefix.len() implies #[trigger] calls[i] == Some(
                    prefix[i],
                ) by {
                    assert(read.subrange(0, prefix.len() as int)[i] == prefix[i]);
                    assert(read[i] == calls[i]->0);
                }
            } else if prefix.len() <= calls.len() && (forall|i: int|
                0 <= i < prefix.len() ==> #[trigger] calls[i] == Some(prefix[i])) {
                assert forall|i: int| 0 <= i < prefix.len() implies read[i] == #[trigger] prefix[i] by {
                    assert(calls[i] == Some(prefix[i]));
                }
                assert(read.subrange(0, prefix.len() as int) =~= prefix);
            }
        }
    }
}

} // verus!
