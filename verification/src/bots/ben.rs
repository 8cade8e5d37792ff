//! BEN cardplay (opening leads + trick play).
//!
//! BEN is stateless: every call carries the full game state. Its conventions:
//!   - `hand` is the *decision-maker's* original 13-card hand. For
//!     declarer-side plays (declarer's hand OR dummy's hand) the decision-maker
//!     is the declarer; never pass the dummy's hand as `hand`.
//!   - `seat` is the decision-maker's seat, not the seat physically playing.
//!   - `ctx` is the auction as a concatenated string: Pass → "--",
//!     X → "Db", XX → "Rd", bids as level+strain with NT as "N" ("1N").
//!   - `played` is every card played so far, chronologically, as
//!     suit-then-rank pairs ("DJDKD3D2").
//!   - `vul` is seat-relative: "" none, "@v" we are vul, "@V" they are,
//!     "@v@V" both.
//!   - play responses carry a `player` field relative to declarer
//!     (0 = LHO, 1 = dummy, 2 = RHO, 3 = declarer).

use vstd::prelude::*;
use vstd::string::*;

use crate::cards::{Call, Card, Direction, Rank, Suit, Vulnerability};
use crate::seating::joined;
use crate::text::{chars_of, decimal, push_decimal, trim_end_char, without_trailing};

verus! {

/// The path that wakes BEN up.
pub fn warm_path() -> (r: &'static str)
    ensures
        r@ == "/bid?hand=AKQ.KQJ.AT98.KQ2&seat=N&dealer=N&vul=&ctx="@,
{
    "/bid?hand=AKQ.KQJ.AT98.KQ2&seat=N&dealer=N&vul=&ctx="
}

/// A call as BEN writes it.
pub open spec fn ben_token(c: Call) -> Seq<char> {
    match c {
        Call::Pass => "--"@,
        Call::Double => "Db"@,
        Call::Redouble => "Rd"@,
        Call::Bid { level, strain } => decimal(level as nat).push(strain.to_char()),
        Call::Continue | Call::Blank => seq![],
    }
}

/// An auction as BEN writes it.
pub open spec fn ben_auction(calls: Seq<Call>) -> Seq<char>
    decreases calls.len(),
{
    if calls.len() == 0 {
        seq![]
    } else {
        ben_auction(calls.drop_last()) + ben_token(calls.last())
    }
}

/// Auction → BEN ctx string: `["Pass","1NT","X","XX","2H"]` → `"--1NDbRd2H"`.
pub fn calls_to_ctx(calls: &[Call]) -> (r: String)
    ensures
        r@ == ben_auction(calls@),
{
    let mut s = String::new();
    let mut i: usize = 0;
    assert(s@ =~= ben_auction(calls@.subrange(0, 0)));
    while i < calls.len()
        invariant
            i <= calls.len(),
            s@ == ben_auction(calls@.subrange(0, i as int)),
        decreases calls.len() - i,
    {
        proof {
            let longer = calls@.subrange(0, i + 1);
            assert(longer.drop_last() =~= calls@.subrange(0, i as int));
            assert(longer.last() == calls@[i as int]);
        }
        let ghost before = s@;
        match calls[i] {
            Call::Pass => s.append("--"),
            Call::Double => s.append("Db"),
            Call::Redouble => s.append("Rd"),
            Call::Bid { level, strain } => {
                push_decimal(&mut s, level as u128);
                s.push(strain.to_char());
            },
            Call::Continue | Call::Blank => {},
        }
        assert(s@ =~= before + ben_token(calls@[i as int]));
        i = i + 1;
    }
    assert(calls@.subrange(0, i as int) =~= calls@);
    s
}

/// Plays as BEN writes them.
pub open spec fn ben_plays(played: Seq<(Direction, Card)>) -> Seq<char>
    decreases played.len(),
{
    if played.len() == 0 {
        seq![]
    } else {
        ben_plays(played.drop_last()) + played.last().1.code()
    }
}

/// Chronological plays → "DJDKD3D2" (suit then rank, T for 10).
pub fn played_to_string(played: &[(Direction, Card)]) -> (r: String)
    ensures
        r@ == ben_plays(played@),
{
    let mut s = String::new();
    let mut i: usize = 0;
    assert(s@ =~= ben_plays(played@.subrange(0, 0)));
    while i < played.len()
        invariant
            i <= played.len(),
            s@ == ben_plays(played@.subrange(0, i as int)),
        decreases played.len() - i,
    {
        proof {
            let longer = played@.subrange(0, i + 1);
            assert(longer.drop_last() =~= played@.subrange(0, i as int));
            assert(longer.last() == played@[i as int]);
        }
        let ghost before = s@;
        let card = played[i].1;
        s.push(card.suit.to_char());
        s.push(card.rank.to_char());
        assert(s@ =~= before + card.code());
        i = i + 1;
    }
    assert(played@.subrange(0, i as int) =~= played@);
    s
}

/// The vulnerability as BEN writes it, seen from a seat.
pub open spec fn ben_vulnerability(vul: Vulnerability, seat: Direction) -> Seq<char> {
    match vul {
        Vulnerability::Neither => ""@,
        Vulnerability::Both => "@v@V"@,
        _ => if vul.is_vulnerable(seat) {
            "@v"@
        } else {
            "@V"@
        },
    }
}

/// PBN vulnerability → BEN's seat-relative encoding.
pub fn vul_to_ben(vul: Vulnerability, seat: Direction) -> (r: &'static str)
    ensures
        r@ == ben_vulnerability(vul, seat),
{
    match vul {
        Vulnerability::Neither => "",
        Vulnerability::Both => "@v@V",
        _ => if vul.is_vulnerable(seat) {
            "@v"
        } else {
            "@V"
        },
    }
}

/// A small `v` stands for a vulnerable side of one's own, a capital one for
/// vulnerable opponents.
pub proof fn law_ben_vulnerability(vul: Vulnerability, seat: Direction)
    ensures
        ben_vulnerability(vul, seat).contains('v') <==> vul.is_vulnerable(seat),
        ben_vulnerability(vul, seat).contains('V') <==> vul.is_vulnerable(seat.next()),
        ben_vulnerability(vul, seat) == ben_vulnerability(vul, seat.partner()),
{
    reveal_strlit("");
    reveal_strlit("@v");
    reveal_strlit("@V");
    reveal_strlit("@v@V");
    assert("@v"@.len() == 2 && "@v"@[0] == '@' && "@v"@[1] == 'v');
    assert("@V"@.len() == 2 && "@V"@[0] == '@' && "@V"@[1] == 'V');
    assert("@v@V"@.len() == 4 && "@v@V"@[0] == '@' && "@v@V"@[1] == 'v' && "@v@V"@[2] == '@'
        && "@v@V"@[3] == 'V');
}

/// Every call that can be made takes two characters, and no two calls take the
/// same; a bid's are its level and its strain's letter.
pub proof fn law_ben_tokens(a: Call, b: Call)
    requires
        a matches Call::Bid { level: la, .. } ==> 1 <= la <= 7,
        b matches Call::Bid { level: lb, .. } ==> 1 <= lb <= 7,
        !(a is Continue || a is Blank || b is Continue || b is Blank),
    ensures
        ben_token(a).len() == 2,
        a matches Call::Bid { level, strain } ==> ben_token(a)[0] as int == '0' as int + level
            && ben_token(a)[1] == strain.to_char(),
        a is Pass <==> ben_token(a)[0] == '-',
        a is Double <==> ben_token(a)[0] == 'D',
        a is Redouble <==> ben_token(a)[0] == 'R',
        ben_token(a) == ben_token(b) ==> a == b,
{
    reveal_strlit("--");
    reveal_strlit("Db");
    reveal_strlit("Rd");
    assert("--"@.len() == 2 && "--"@[0] == '-');
    assert("Db"@.len() == 2 && "Db"@[0] == 'D');
    assert("Rd"@.len() == 2 && "Rd"@[0] == 'R');
    if ben_token(a) == ben_token(b) {
        assert(ben_token(a)[0] == ben_token(b)[0]);
        assert(ben_token(a)[1] == ben_token(b)[1]);
        if let Call::Bid { level, strain } = b {
            assert(ben_token(b)[0] as int == '0' as int + level);
            assert(ben_token(b)[1] == strain.to_char());
        }
    }
}

/// An auction is written call by call, in the order in which the calls were made.
pub proof fn law_ben_auction(calls: Seq<Call>, i: int)
    requires
        0 <= i < calls.len(),
        forall|j: int|
            0 <= j < calls.len() ==> !(#[trigger] calls[j] is Continue || calls[j] is Blank),
        forall|j: int|
            0 <= j < calls.len() ==> ((#[trigger] calls[j]) matches Call::Bid { level, .. } ==> 1
                <= level <= 7),
    ensures
        ben_auction(calls).len() == 2 * calls.len(),
        ben_auction(calls).subrange(2 * i, 2 * i + 2) == ben_token(calls[i]),
    decreases calls.len(),
{
    let head = calls.drop_last();
    assert(forall|j: int| 0 <= j < head.len() ==> head[j] == calls[j]);
    assert(calls[calls.len() - 1] == calls.last());
    law_ben_tokens(calls.last(), calls.last());
    let whole = ben_auction(calls);
    if head.len() > 0 {
        let at = if i < head.len() { i } else { 0int };
        law_ben_auction(head, at);
        if i < head.len() {
            assert(whole.subrange(2 * i, 2 * i + 2) =~= ben_auction(head).subrange(
                2 * i,
                2 * i + 2,
            ));
        }
    } else {
        assert(ben_auction(head).len() == 0);
    }
    if i == head.len() {
        assert(whole.subrange(2 * i, 2 * i + 2) =~= ben_token(calls.last()));
    }
}

/// Plays are written card by card, in the order in which they were made.
pub proof fn law_ben_plays(played: Seq<(Direction, Card)>, i: int)
    requires
        0 <= i < played.len(),
    ensures
        ben_plays(played).len() == 2 * played.len(),
        ben_plays(played)[2 * i] == played[i].1.suit.to_char(),
        ben_plays(played)[2 * i + 1] == played[i].1.rank.to_char(),
    decreases played.len(),
{
    let head = played.drop_last();
    assert(played[played.len() - 1] == played.last());
    if head.len() > 0 {
        let at = if i < head.len() { i } else { 0int };
        law_ben_plays(head, at);
        if i < head.len() {
            assert(head[i] == played[i]);
        }
    } else {
        assert(ben_plays(head).len() == 0);
    }
}

/// Map BEN's `player` field (relative to declarer) back to an actual seat:
/// 0 = LHO (clockwise after declarer), 1 = dummy, 2 = RHO, 3 = declarer.
pub fn player_to_seat(player: u64, declarer: Direction) -> (r: Direction)
    ensures
        r == declarer.plus(player + 1),
{
    let turns: u64 = (player % 4 + 1) % 4;
    assert((declarer.index() + (player + 1)) % 4 == (declarer.index() + turns) % 4);
    declarer.rotate(turns as u8)
}

/// The card that a code names: a suit letter, a rank character, and no more.
pub open spec fn card_named(code: Seq<char>) -> Option<Card> {
    if code.len() == 2 && Suit::named(code[0]) is Some && Rank::named(code[1]) is Some {
        Some(Card { suit: Suit::named(code[0])->0, rank: Rank::named(code[1])->0 })
    } else {
        None
    }
}

/// "S7" / "HT" → Card.
pub fn card_from_code(code: &str) -> (r: Option<Card>)
    ensures
        r == card_named(code@),
{
    let chars = chars_of(code);
    if chars.len() != 2 {
        return None;
    }
    match (Suit::from_char(chars[0]), Rank::from_char(chars[1])) {
        (Some(suit), Some(rank)) => Some(Card { suit, rank }),
        _ => None,
    }
}

/// A card's code names the card.
pub proof fn law_card_codes(card: Card, code: Seq<char>)
    ensures
        card_named(card.code()) == Some(card),
        card_named(code) == Some(card) ==> code == card.code(),
{
    if card_named(code) == Some(card) {
        assert(code =~= card.code());
    }
}

/// How BEN is reached.
#[derive(Debug)]
pub struct BenClient {
    pub base: String,
    /// Per-call budget in milliseconds.
    pub timeout_ms: u64,
}

fn letter(seat: Direction) -> (r: String)
    ensures
        r@ == seq![seat.to_char()],
{
    let mut s = String::new();
    s.push(seat.to_char());
    assert(s@ =~= seq![seat.to_char()]);
    s
}

/// What a query says: each parameter's name and value, in order.
pub open spec fn query_view(q: Seq<(&'static str, String)>) -> Seq<(Seq<char>, Seq<char>)> {
    Seq::new(q.len(), |i: int| (q[i].0@, q[i].1@))
}

impl BenClient {
    pub fn new(base: &str, timeout_ms: u64) -> (r: BenClient)
        ensures
            r.base@ == without_trailing(base@, '/'),
            r.timeout_ms == timeout_ms,
    {
        BenClient { base: trim_end_char(base, '/'), timeout_ms }
    }

    /// The query for an opening lead by `seat` (always a defender).
    pub fn lead(&self, hand_pbn: &str, seat: Direction, dealer: Direction, vul: &str, ctx: &str) -> (r:
        Vec<(&'static str, String)>)
        ensures
            query_view(r@) == seq![
                ("hand"@, hand_pbn@),
                ("seat"@, seq![seat.to_char()]),
                ("dealer"@, seq![dealer.to_char()]),
                ("vul"@, vul@),
                ("ctx"@, ctx@),
            ],
    {
        let mut q: Vec<(&'static str, String)> = Vec::new();
        q.push(("hand", hand_pbn.to_owned()));
        q.push(("seat", letter(seat)));
        q.push(("dealer", letter(dealer)));
        q.push(("vul", vul.to_owned()));
        q.push(("ctx", ctx.to_owned()));
        assert(query_view(q@) =~= seq![
            ("hand"@, hand_pbn@),
            ("seat"@, seq![seat.to_char()]),
            ("dealer"@, seq![dealer.to_char()]),
            ("vul"@, vul@),
            ("ctx"@, ctx@),
        ]);
        q
    }

    /// The query for the next card.
    pub fn play(
        &self,
        hand_pbn: &str,
        dummy_pbn: &str,
        seat: Direction,
        dealer: Direction,
        vul: &str,
        ctx: &str,
        played: &str,
    ) -> (r: Vec<(&'static str, String)>)
        ensures
            query_view(r@) == seq![
                ("hand"@, hand_pbn@),
                ("dummy"@, dummy_pbn@),
                ("seat"@, seq![seat.to_char()]),
                ("dealer"@, seq![dealer.to_char()]),
                ("vul"@, vul@),
                ("ctx"@, ctx@),
                ("played"@, played@),
            ],
    {
        let mut q: Vec<(&'static str, String)> = Vec::new();
        q.push(("hand", hand_pbn.to_owned()));
        q.push(("dummy", dummy_pbn.to_owned()));
        q.push(("seat", letter(seat)));
        q.push(("dealer", letter(dealer)));
        q.push(("vul", vul.to_owned()));
        q.push(("ctx", ctx.to_owned()));
        q.push(("played", played.to_owned()));
        assert(query_view(q@) =~= seq![
            ("hand"@, hand_pbn@),
            ("dummy"@, dummy_pbn@),
            ("seat"@, seq![seat.to_char()]),
            ("dealer"@, seq![dealer.to_char()]),
            ("vul"@, vul@),
            ("ctx"@, ctx@),
            ("played"@, played@),
        ]);
        q
    }
}

/// What BEN answered.
#[derive(Debug)]
pub struct BenReply {
    /// The HTTP status is a success.
    pub status_ok: bool,
    pub status: String,
    pub error: Option<String>,
    /// The card's code, where the answer names one.
    pub card: Option<String>,
    /// What stands in the answer for the card, as it was written.
    pub card_written: String,
    pub player: Option<u64>,
}

/// The card and player that an answer names, or what is wrong with it.
pub open spec fn card_of_reply(path: Seq<char>, reply: BenReply) -> Result<
    (Card, Option<u64>),
    Seq<char>,
> {
    if !reply.status_ok {
        Err(
            "BEN "@ + path + ": "@ + (match reply.error {
                Some(e) => e@,
                None => reply.status@,
            }),
        )
    } else {
        match card_named(
            match reply.card {
                Some(code) => code@,
                None => seq![],
            },
        ) {
            Some(card) => Ok((card, reply.player)),
            None => Err("BEN "@ + path + " returned unparseable card: "@ + reply.card_written@),
        }
    }
}

/// Reads an answer to a query at `path`.
pub fn read_reply(path: &str, reply: &BenReply) -> (r: Result<(Card, Option<u64>), String>)
    ensures
        match r {
            Ok(named) => card_of_reply(path@, *reply) == Ok::<(Card, Option<u64>), Seq<char>>(
                named,
            ),
            Err(e) => card_of_reply(path@, *reply) == Err::<(Card, Option<u64>), Seq<char>>(e@),
        },
{
    if !reply.status_ok {
        let mut e = joined("BEN ", path);
        e.append(": ");
        match &reply.error {
            Some(words) => e.append(words.as_str()),
            None => e.append(reply.status.as_str()),
        }
        return Err(e);
    }
    let card = match &reply.card {
        Some(code) => card_from_code(code.as_str()),
        None => None,
    };
    match card {
        Some(card) => Ok((card, reply.player)),
        None => {
            let mut e = joined("BEN ", path);
            e.append(" returned unparseable card: ");
            e.append(reply.card_written.as_str());
            Err(e)
        },
    }
}

/// An answer is taken exactly if it succeeded and its code names a card; then it is
/// that card, of the player that it names, if any. One that failed is told in its
/// own words or by its status, with the path that was asked.
pub proof fn law_reply(path: Seq<char>, reply: BenReply, card: Card)
    ensures
        ({
            let r = card_of_reply(path, reply);
            &&& (r matches Ok((c, _)) && c == card) <==> reply.status_ok && (
            reply.card matches Some(code) && code@ == card.code())
            &&& r matches Ok((_, player)) ==> player == reply.player
            &&& !reply.status_ok && reply.error is Some ==> r == Err::<
                (Card, Option<u64>),
                Seq<char>,
            >("BEN "@ + path + ": "@ + reply.error->0@)
            &&& !reply.status_ok && reply.error is None ==> r == Err::<
                (Card, Option<u64>),
                Seq<char>,
            >("BEN "@ + path + ": "@ + reply.status@)
            &&& reply.status_ok && r is Err ==> r == Err::<(Card, Option<u64>), Seq<char>>(
                "BEN "@ + path + " returned unparseable card: "@ + reply.card_written@,
            )
        }),
{
    law_card_codes(
        card,
        match reply.card {
            Some(code) => code@,
            None => seq![],
        },
    );
}

/// Players are counted clockwise from the one after declarer: dummy is the second
/// and declarer the last.
pub proof fn law_players(player: u64, declarer: Direction)
    ensures
        player == 0 ==> declarer.plus(player + 1) == declarer.next(),
        player == 1 ==> declarer.plus(player + 1) == declarer.partner(),
        player == 2 ==> declarer.plus(player + 1) == declarer.partner().next(),
        player == 3 ==> declarer.plus(player + 1) == declarer,
{
}

} // verus!
