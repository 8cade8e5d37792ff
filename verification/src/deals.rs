//! Boards for the demo table: a random deal, or one that the client brings.

use vstd::prelude::*;
use vstd::string::*;

use crate::boards::{board_of, short_board_words, standard_dealer, ParsedBoard};
use crate::cards::{
    copy_cards, hand, holding, ranks_down, suited, Card, Deal, DealView, Direction, Rank, Suit,
    Vulnerability,
};
use crate::chance::random_u64;
use crate::table::{
    dealt_cards, fold_of, full_deal, held_cards, law_cards_accounted, legal_log, played_cards,
    Action, BoardSetup, BoardView,
};

verus! {

pub open spec fn spec_standard_vulnerability(board_number: u32) -> Vulnerability {
    let i = board_number - 1;
    let turn = (i + i / 4) % 4;
    if turn == 0 {
        Vulnerability::Neither
    } else if turn == 1 {
        Vulnerability::NorthSouth
    } else if turn == 2 {
        Vulnerability::EastWest
    } else {
        Vulnerability::Both
    }
}

/// Standard duplicate vulnerability: none, N-S, E-W, both, shifted by one every
/// four boards.
#[verifier::when_used_as_spec(spec_standard_vulnerability)]
pub fn standard_vulnerability(board_number: u32) -> (r: Vulnerability)
    requires
        board_number > 0,
    ensures
        r == spec_standard_vulnerability(board_number),
{
    let i: u64 = board_number as u64 - 1;
    let turn: u64 = (i + i / 4) % 4;
    match turn {
        0 => Vulnerability::Neither,
        1 => Vulnerability::NorthSouth,
        2 => Vulnerability::EastWest,
        _ => Vulnerability::Both,
    }
}

/// The fifty-two cards.
pub open spec fn deck() -> Seq<Card> {
    let suit = "AKQJT98765432"@;
    holding(suit, suit, suit, suit)
}

/// The fifty-two cards.
pub fn full_deck() -> (r: Vec<Card>)
    ensures
        r@ == deck(),
        r@.len() == 52,
{
    proof {
        reveal_strlit("AKQJT98765432");
        let suit = "AKQJT98765432"@;
        crate::cards::lemma_suited_len(crate::cards::Suit::Spades, suit);
        crate::cards::lemma_suited_len(crate::cards::Suit::Hearts, suit);
        crate::cards::lemma_suited_len(crate::cards::Suit::Diamonds, suit);
        crate::cards::lemma_suited_len(crate::cards::Suit::Clubs, suit);
    }
    hand("AKQJT98765432", "AKQJT98765432", "AKQJT98765432", "AKQJT98765432")
}

/// The cards of a pool in the order in which numbers draw them: each number, by
/// its remainder, picks one of the cards that are left.
pub open spec fn drawn(pool: Seq<Card>, draws: Seq<u64>) -> Seq<Card>
    decreases pool.len(),
{
    if pool.len() == 0 || draws.len() == 0 {
        seq![]
    } else {
        let i = draws[0] as int % pool.len() as int;
        seq![pool[i]] + drawn(pool.remove(i), draws.drop_first())
    }
}

/// Draws the cards of a pool, one for each number, until either runs out.
pub fn draw_all(cards: Vec<Card>, draws: &Vec<u64>) -> (r: Vec<Card>)
    ensures
        r@ == drawn(cards@, draws@),
{
    let mut pool = cards;
    let mut r: Vec<Card> = Vec::new();
    let mut k: usize = 0;
    proof {
        assert(draws@.subrange(0, draws@.len() as int) =~= draws@);
        assert(r@ + drawn(pool@, draws@) =~= drawn(cards@, draws@));
    }
    while k < draws.len() && pool.len() > 0
        invariant
            k <= draws.len(),
            r@ + drawn(pool@, draws@.subrange(k as int, draws@.len() as int)) == drawn(
                cards@,
                draws@,
            ),
        decreases draws.len() - k,
    {
        let i: usize = (draws[k] % (pool.len() as u64)) as usize;
        let ghost before = pool@;
        let ghost so_far = r@;
        let ghost rest = draws@.subrange(k as int, draws@.len() as int);
        let card = pool.remove(i);
        r.push(card);
        k = k + 1;
        proof {
            assert(i == rest[0] as int % before.len() as int);
            assert(rest.drop_first() =~= draws@.subrange(k as int, draws@.len() as int));
            assert(r@ + drawn(pool@, rest.drop_first()) =~= so_far + drawn(before, rest));
        }
    }
    assert(r@ + Seq::<Card>::empty() =~= r@);
    r
}

/// Draws all cards of a pool, one after the other, at random: in the order in
/// which some numbers, one for each card, draw them. Whatever is drawn, they
/// are the same cards.
fn shuffle(cards: Vec<Card>) -> (r: Vec<Card>)
    ensures
        exists|draws: Seq<u64>|
            draws.len() == cards@.len() && r@ == #[trigger] drawn(cards@, draws),
        r@.to_multiset() == cards@.to_multiset(),
        r@.len() == cards@.len(),
{
    let n: usize = cards.len();
    let mut draws: Vec<u64> = Vec::new();
    while draws.len() < n
        invariant
            draws@.len() <= n,
        decreases n - draws.len(),
    {
        draws.push(random_u64());
    }
    proof {
        law_drawn_cards_are_the_pool(cards@, draws@);
    }
    draw_all(cards, &draws)
}

/// The board that is dealt from cards in a given order: the first thirteen go
/// to North, the next to East, then South and West; the dealer and the
/// vulnerability go by the board's number.
pub open spec fn dealt(number: u32, cards: Seq<Card>) -> BoardView {
    BoardView {
        number,
        dealer: standard_dealer(number),
        vulnerable: standard_vulnerability(number),
        deal: DealView {
            north: cards.subrange(0, 13),
            east: cards.subrange(13, 26),
            south: cards.subrange(26, 39),
            west: cards.subrange(39, 52),
        },
        play_line: None,
    }
}

/// The cards from one place of a list to another.
fn part(cards: &Vec<Card>, from: usize, to: usize) -> (r: Vec<Card>)
    requires
        from <= to <= cards.len(),
    ensures
        r@ == cards@.subrange(from as int, to as int),
{
    let mut r: Vec<Card> = Vec::new();
    let mut i: usize = from;
    while i < to
        invariant
            from <= i <= to <= cards.len(),
            r@ == cards@.subrange(from as int, i as int),
        decreases to - i,
    {
        r.push(cards[i]);
        i = i + 1;
    }
    r
}

/// Deals fifty-two cards in a given order.
pub fn deal_cards(number: u32, cards: &Vec<Card>) -> (r: BoardSetup)
    requires
        number > 0,
        cards@.len() == 52,
    ensures
        r@ == dealt(number, cards@),
{
    BoardSetup {
        number,
        dealer: standard_dealer(number),
        vulnerable: standard_vulnerability(number),
        deal: Deal {
            north: part(cards, 0, 13),
            east: part(cards, 13, 26),
            south: part(cards, 26, 39),
            west: part(cards, 39, 52),
        },
        play_line: None,
    }
}

/// A random deal: whatever is drawn, it is the fifty-two cards dealt in some
/// order.
pub fn random_board(number: u32) -> (r: BoardSetup)
    requires
        number > 0,
    ensures
        exists|cards: Seq<Card>|
            cards.len() == 52 && cards.to_multiset() == deck().to_multiset() && r@
                == #[trigger] dealt(number, cards),
{
    let cards = shuffle(full_deck());
    deal_cards(number, &cards)
}

impl DealView {
    /// Every hand has moved `n` seats clockwise.
    pub open spec fn rotated(self, n: int) -> DealView {
        DealView {
            north: self.hand(Direction::North.plus(-n)),
            east: self.hand(Direction::East.plus(-n)),
            south: self.hand(Direction::South.plus(-n)),
            west: self.hand(Direction::West.plus(-n)),
        }
    }
}

impl Vulnerability {
    /// The sides have moved `n` seats clockwise.
    pub open spec fn rotated(self, n: int) -> Vulnerability {
        if n % 2 == 0 {
            self
        } else {
            match self {
                Vulnerability::NorthSouth => Vulnerability::EastWest,
                Vulnerability::EastWest => Vulnerability::NorthSouth,
                v => v,
            }
        }
    }
}

/// A board under another number, moved `n` seats clockwise. A recorded play
/// goes with its seats only: it is dropped if they move.
pub open spec fn rotated(b: BoardView, n: int, number: u32) -> BoardView {
    BoardView {
        number,
        dealer: b.dealer.plus(n),
        vulnerable: b.vulnerable.rotated(n),
        deal: b.deal.rotated(n),
        play_line: if n % 4 == 0 {
            b.play_line
        } else {
            None
        },
    }
}

/// Moves a board `n` seats clockwise.
fn rotate_board(b: &BoardSetup, n: u8, number: u32) -> (r: BoardSetup)
    requires
        n < 4,
    ensures
        r@ == rotated(b@, n as int, number),
{
    let back: u8 = 4 - n;
    proof {
        crate::cards::law_plus_adds(Direction::North, -n, 4);
        crate::cards::law_plus_adds(Direction::East, -n, 4);
        crate::cards::law_plus_adds(Direction::South, -n, 4);
        crate::cards::law_plus_adds(Direction::West, -n, 4);
        crate::cards::law_plus_adds(Direction::North.plus(-n), 4, 0);
        crate::cards::law_plus_adds(Direction::East.plus(-n), 4, 0);
        crate::cards::law_plus_adds(Direction::South.plus(-n), 4, 0);
        crate::cards::law_plus_adds(Direction::West.plus(-n), 4, 0);
    }
    let vulnerable = if n % 2 == 0 {
        b.vulnerable
    } else {
        match b.vulnerable {
            Vulnerability::NorthSouth => Vulnerability::EastWest,
            Vulnerability::EastWest => Vulnerability::NorthSouth,
            v => v,
        }
    };
    let play_line = if n == 0 {
        match &b.play_line {
            Some(line) => Some(line.copy()),
            None => None,
        }
    } else {
        None
    };
    let r = BoardSetup {
        number,
        dealer: b.dealer.rotate(n),
        vulnerable,
        deal: Deal {
            north: copy_cards(b.deal.hand(Direction::North.rotate(back)).as_slice()),
            east: copy_cards(b.deal.hand(Direction::East.rotate(back)).as_slice()),
            south: copy_cards(b.deal.hand(Direction::South.rotate(back)).as_slice()),
            west: copy_cards(b.deal.hand(Direction::West.rotate(back)).as_slice()),
        },
        play_line,
    };
    assert(r@ =~= rotated(b@, n as int, number));
    r
}

/// The first of the boards that a client brought, as a full deal, moved
/// `rotate` seats clockwise, under the given number.
pub fn board_from_pbn(boards: &Vec<ParsedBoard>, rotate: u8, number: u32) -> (r: Result<
    BoardSetup,
    String,
>)
    requires
        rotate < 4,
    ensures
        match r {
            Ok(board) => boards@.len() > 0 && boards@[0].deal@.total_cards() == 52 && board@
                == rotated(board_of(boards@[0], 0), rotate as int, number),
            Err(e) => if boards@.len() == 0 {
                e@ == "no boards in PBN"@
            } else {
                boards@[0].deal@.total_cards() != 52 && e@ == short_board_words(boards@, 0)
            },
        },
{
    if boards.len() == 0 {
        return Err("no boards in PBN".to_owned());
    }
    let b = &boards[0];
    let total: u128 = b.deal.total_cards();
    if total != 52 {
        return Err(crate::boards::short_board(0, total));
    }
    let board = crate::boards::setup_board(b, 0);
    Ok(rotate_board(&board, rotate, number))
}

/// Four moves of a quarter bring a board back to where it was, and nothing is
/// lost on the way: the hand that a seat holds has come from the seat `n` places
/// before it.
pub proof fn law_rotation(d: DealView, n: int, m: int, seat: Direction)
    ensures
        d.rotated(n).hand(seat) == d.hand(seat.plus(-n)),
        d.rotated(n).rotated(m) == d.rotated(n + m),
        d.rotated(4) == d,
        d.rotated(n).total_cards() == d.total_cards(),
{
    assert(d.rotated(n).rotated(m) =~= d.rotated(n + m));
    assert(d.rotated(4) =~= d);
}

/// Drawing with as many numbers as there are cards, or more, loses no card and
/// adds none, whatever the numbers are.
pub proof fn law_drawn_cards_are_the_pool(pool: Seq<Card>, draws: Seq<u64>)
    requires
        pool.len() <= draws.len(),
    ensures
        drawn(pool, draws).to_multiset() == pool.to_multiset(),
        drawn(pool, draws).len() == pool.len(),
    decreases pool.len(),
{
    broadcast use vstd::seq_lib::group_to_multiset_ensures;

    if pool.len() == 0 {
        assert(drawn(pool, draws) =~= pool);
    } else {
        let i = draws[0] as int % pool.len() as int;
        let left = pool.remove(i);
        let later = drawn(left, draws.drop_first());
        law_drawn_cards_are_the_pool(left, draws.drop_first());
        assert(pool =~= left.insert(i, pool[i]));
        assert(seq![pool[i]] + later =~= later.insert(0, pool[i]));
        assert(drawn(pool, draws).to_multiset() =~= pool.to_multiset());
    }
}

/// Where a card stands in the deck: by suits from the spades, then from the ace.
spec fn place_in_deck(card: Card) -> int {
    let suits = match card.suit {
        Suit::Spades => 0int,
        Suit::Hearts => 1,
        Suit::Diamonds => 2,
        Suit::Clubs => 3,
    };
    13 * suits + 14 - card.rank.pips()
}

/// The cards of a suit whose ranks a text lists, one by one.
proof fn lemma_suited_at(suit: Suit, ranks: Seq<char>, i: int)
    requires
        forall|j: int| 0 <= j < ranks.len() ==> Rank::named(#[trigger] ranks[j]) is Some,
        0 <= i < ranks.len(),
    ensures
        suited(suit, ranks).len() == ranks.len(),
        suited(suit, ranks)[i] == (Card { suit, rank: Rank::named(ranks[i])->0 }),
    decreases ranks.len(),
{
    let head = ranks.drop_last();
    assert(forall|j: int| 0 <= j < head.len() ==> head[j] == ranks[j]);
    crate::cards::lemma_suited_len(suit, head);
    if i < head.len() {
        lemma_suited_at(suit, head, i);
    }
}

/// Every card stands in the deck, at one place.
proof fn lemma_deck(card: Card)
    ensures
        deck().len() == 52,
        0 <= place_in_deck(card) < 52,
        deck()[place_in_deck(card)] == card,
        forall|j: int| 0 <= j < 52 ==> place_in_deck(#[trigger] deck()[j]) == j,
{
    reveal_strlit("AKQJT98765432");
    let text = "AKQJT98765432"@;
    assert forall|j: int| 0 <= j < 13 implies Rank::named(#[trigger] text[j]) == Some(
        ranks_down()[j],
    ) by {}
    assert forall|suit: Suit, j: int| 0 <= j < 13 implies #[trigger] suited(suit, text)[j] == (Card {
        suit,
        rank: ranks_down()[j],
    }) && suited(suit, text).len() == 13 by {
        lemma_suited_at(suit, text, j);
    }
    assert forall|j: int| 0 <= j < 13 implies 14 - (#[trigger] ranks_down()[j]).pips() == j by {}
    let (s, h) = (suited(Suit::Spades, text), suited(Suit::Hearts, text));
    let (d, c) = (suited(Suit::Diamonds, text), suited(Suit::Clubs, text));
    crate::cards::lemma_suited_len(Suit::Spades, text);
    crate::cards::lemma_suited_len(Suit::Hearts, text);
    crate::cards::lemma_suited_len(Suit::Diamonds, text);
    crate::cards::lemma_suited_len(Suit::Clubs, text);
    assert(s.len() == 13 && h.len() == 13 && d.len() == 13 && c.len() == 13);
    assert(deck() == s + h + d + c);
    assert forall|j: int| 0 <= j < 52 implies place_in_deck(#[trigger] deck()[j]) == j && deck()[j]
        == suited(deck()[j].suit, text)[j % 13] by {
        let r = ranks_down()[j % 13];
        if j < 13 {
            assert(deck()[j] == s[j]);
        } else if j < 26 {
            assert(deck()[j] == h[j - 13]);
        } else if j < 39 {
            assert(deck()[j] == d[j - 26]);
        } else {
            assert(deck()[j] == c[j - 39]);
        }
    }
    let r = 14 - card.rank.pips();
    assert(ranks_down()[r] == card.rank);
    assert(deck()[place_in_deck(card)] == suited(card.suit, text)[r]);
}

/// The deck holds every card once.
pub proof fn law_deck(card: Card)
    ensures
        deck().len() == 52,
        deck().no_duplicates(),
        deck().contains(card),
        deck().to_multiset().count(card) == 1,
{
    broadcast use vstd::seq_lib::group_to_multiset_ensures;

    lemma_deck(card);
    let d = deck();
    assert forall|i: int, j: int| 0 <= i < d.len() && 0 <= j < d.len() && i != j implies d[i]
        != d[j] by {
        assert(place_in_deck(d[i]) == i && place_in_deck(d[j]) == j);
    }
    d.lemma_multiset_has_no_duplicates();
    assert(d.to_multiset().contains(card));
}

/// A full deal is the deck.
pub proof fn law_full_deal_is_the_deck(deal: DealView)
    requires
        full_deal(deal),
    ensures
        dealt_cards(deal).to_multiset() == deck().to_multiset(),
{
    broadcast use vstd::seq_lib::group_to_multiset_ensures;

    let all = dealt_cards(deal);
    let d = deck();
    assert(deal.hand(Direction::North).len() == 13 && deal.hand(Direction::East).len() == 13
        && deal.hand(Direction::South).len() == 13 && deal.hand(Direction::West).len() == 13);
    assert forall|card: Card| all.to_set().contains(card) implies d.to_set().contains(card) by {
        law_deck(card);
    }
    law_deck(all[0]);
    all.unique_seq_to_set();
    d.unique_seq_to_set();
    vstd::set_lib::lemma_subset_equality(all.to_set(), d.to_set());
    all.lemma_multiset_has_no_duplicates();
    assert forall|card: Card| #[trigger] all.to_multiset().count(card) == d.to_multiset().count(
        card,
    ) by {
        law_deck(card);
        assert(d.to_set().contains(card));
        assert(all.to_set().contains(card));
        assert(all.to_multiset().contains(card));
    }
    assert(all.to_multiset() =~= d.to_multiset());
}

/// On a full deal the fifty-two cards of the deck are, at any time, each held or
/// played, once.
pub proof fn law_deck_is_held_or_played(board: BoardView, log: Seq<Action>)
    requires
        legal_log(board, log),
        full_deal(board.deal),
    ensures
        ({
            let played = fold_of(board.dealer, log).played;
            (held_cards(board.deal, played) + played_cards(played)).to_multiset()
                == deck().to_multiset()
        }),
{
    law_cards_accounted(board, log, Direction::North);
    law_full_deal_is_the_deck(board.deal);
}

/// Everybody is dealt thirteen cards.
pub proof fn law_dealt_evenly(number: u32, cards: Seq<Card>, seat: Direction)
    requires
        cards.len() == 52,
    ensures
        dealt(number, cards).deal.hand(seat).len() == 13,
        dealt(number, cards).deal.total_cards() == 52,
{
}

/// The next vulnerability in the order none, North-South, East-West, both.
pub open spec fn vulnerability_after(v: Vulnerability) -> Vulnerability {
    match v {
        Vulnerability::Neither => Vulnerability::NorthSouth,
        Vulnerability::NorthSouth => Vulnerability::EastWest,
        Vulnerability::EastWest => Vulnerability::Both,
        Vulnerability::Both => Vulnerability::Neither,
    }
}

/// Nobody is vulnerable on the first board. The vulnerability goes on by one from
/// board to board, and by one more after every fourth; so that after sixteen
/// boards it starts again.
pub proof fn law_vulnerabilities_in_turn(n: u32)
    requires
        0 < n,
        n + 16 <= u32::MAX,
    ensures
        standard_vulnerability(1) == Vulnerability::Neither,
        n % 4 != 0 ==> standard_vulnerability((n + 1) as u32) == vulnerability_after(
            standard_vulnerability(n),
        ),
        n % 4 == 0 ==> standard_vulnerability((n + 1) as u32) == vulnerability_after(
            vulnerability_after(standard_vulnerability(n)),
        ),
        standard_vulnerability((n + 16) as u32) == standard_vulnerability(n),
{
    let i = n - 1;
    if n % 4 != 0 {
        assert((i + 1) / 4 == i / 4);
    } else {
        assert((i + 1) / 4 == i / 4 + 1);
    }
    assert((i + 16) / 4 == i / 4 + 4);
}

/// A board that is moved round the table is the same board for whoever moves
/// with it: the dealer still deals, everybody holds the same cards and is as
/// vulnerable as before. A recorded play is kept only if nobody has moved.
pub proof fn law_rotated_board(b: BoardView, n: int, number: u32, seat: Direction)
    ensures
        ({
            let moved = rotated(b, n, number);
            &&& moved.number == number
            &&& moved.dealer == seat.plus(n) <==> b.dealer == seat
            &&& moved.deal.hand(seat.plus(n)) == b.deal.hand(seat)
            &&& moved.vulnerable.is_vulnerable(seat.plus(n)) == b.vulnerable.is_vulnerable(seat)
            &&& n % 4 == 0 ==> moved == (BoardView { number, ..b })
            &&& n % 4 != 0 ==> moved.play_line is None
        }),
{
    law_rotation(b.deal, n, 0, seat.plus(n));
    crate::cards::law_plus_adds(seat, n, -n);
    assert(seat.plus(n).is_ns() == (if n % 2 == 0 {
        seat.is_ns()
    } else {
        !seat.is_ns()
    }));
    if n % 4 == 0 {
        assert(rotated(b, n, number).deal =~= b.deal);
        assert(rotated(b, n, number) =~= (BoardView { number, ..b }));
    }
}

/// The cards are dealt in quarters, the first to North and each further one to
/// the next seat clockwise; who deals and who is vulnerable goes by the number.
pub proof fn law_dealt_in_quarters(number: u32, cards: Seq<Card>, q: int, k: int)
    requires
        cards.len() == 52,
        0 <= q < 4,
        0 <= k < 13,
    ensures
        ({
            let board = dealt(number, cards);
            &&& board.number == number
            &&& board.dealer == standard_dealer(number)
            &&& board.vulnerable == standard_vulnerability(number)
            &&& board.deal.hand(Direction::North.plus(q))[k] == cards[13 * q + k]
            &&& board.play_line is None
        }),
{
}

/// Each number picks, by its remainder, one of the cards that are left.
pub proof fn law_draws_pick_what_is_left(pool: Seq<Card>, draws: Seq<u64>, draw: u64)
    requires
        pool.len() > 0,
    ensures
        ({
            let i = draw as int % pool.len() as int;
            let order = drawn(pool, seq![draw] + draws);
            order[0] == pool[i] && order.drop_first() == drawn(pool.remove(i), draws)
        }),
{
    let all = seq![draw] + draws;
    assert(all.drop_first() =~= draws);
    let i = draw as int % pool.len() as int;
    assert(drawn(pool, all).drop_first() =~= drawn(pool.remove(i), draws));
}

} // verus!
