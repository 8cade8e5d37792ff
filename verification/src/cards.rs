//! The pieces of the game: seats, cards, calls, hands and deals.

use vstd::prelude::*;
use vstd::string::*;

use crate::engine::play::holds_card;
use crate::text::{first_index, lemma_first_index};

verus! {

/// A seat at the table; also a compass direction. Clockwise: N, E, S, W.
#[derive(Clone, Copy, Debug, PartialEq, Eq, Structural)]
pub enum Direction {
    North,
    East,
    South,
    West,
}

impl Direction {
    /// Clockwise position, North first.
    pub open spec fn index(self) -> int {
        match self {
            Direction::North => 0,
            Direction::East => 1,
            Direction::South => 2,
            Direction::West => 3,
        }
    }

    /// The seat at clockwise position `i` modulo the four seats.
    pub open spec fn at(i: int) -> Direction {
        if i % 4 == 0 {
            Direction::North
        } else if i % 4 == 1 {
            Direction::East
        } else if i % 4 == 2 {
            Direction::South
        } else {
            Direction::West
        }
    }

    /// The seat `n` places clockwise from this one.
    pub open spec fn plus(self, n: int) -> Direction {
        Direction::at(self.index() + n)
    }

    pub open spec fn spec_next(self) -> Direction {
        self.plus(1)
    }

    pub open spec fn spec_partner(self) -> Direction {
        self.plus(2)
    }

    pub open spec fn spec_to_char(self) -> char {
        match self {
            Direction::North => 'N',
            Direction::East => 'E',
            Direction::South => 'S',
            Direction::West => 'W',
        }
    }

    /// North or South.
    pub open spec fn is_ns(self) -> bool {
        self is North || self is South
    }

    /// The seat to the left: the next one to act.
    #[verifier::when_used_as_spec(spec_next)]
    pub fn next(self) -> (r: Direction)
        ensures
            r == self.spec_next(),
    {
        match self {
            Direction::North => Direction::East,
            Direction::East => Direction::South,
            Direction::South => Direction::West,
            Direction::West => Direction::North,
        }
    }

    /// The seat across the table.
    #[verifier::when_used_as_spec(spec_partner)]
    pub fn partner(self) -> (r: Direction)
        ensures
            r == self.spec_partner(),
    {
        match self {
            Direction::North => Direction::South,
            Direction::East => Direction::West,
            Direction::South => Direction::North,
            Direction::West => Direction::East,
        }
    }

    /// Clockwise position, North being 0.
    pub fn to_index(self) -> (r: usize)
        ensures
            r == self.index(),
    {
        match self {
            Direction::North => 0,
            Direction::East => 1,
            Direction::South => 2,
            Direction::West => 3,
        }
    }

    /// The seat's letter.
    #[verifier::when_used_as_spec(spec_to_char)]
    pub fn to_char(self) -> (r: char)
        ensures
            r == self.spec_to_char(),
    {
        match self {
            Direction::North => 'N',
            Direction::East => 'E',
            Direction::South => 'S',
            Direction::West => 'W',
        }
    }

    /// The seat that a letter names.
    pub open spec fn named(c: char) -> Option<Direction> {
        if c == 'N' {
            Some(Direction::North)
        } else if c == 'E' {
            Some(Direction::East)
        } else if c == 'S' {
            Some(Direction::South)
        } else if c == 'W' {
            Some(Direction::West)
        } else {
            None
        }
    }

    /// The seat that a letter names.
    pub fn from_char(c: char) -> (r: Option<Direction>)
        ensures
            r == Direction::named(c),
            forall|d: Direction| r == Some(d) <==> c == #[trigger] d.to_char(),
    {
        let r = if c == 'N' {
            Some(Direction::North)
        } else if c == 'E' {
            Some(Direction::East)
        } else if c == 'S' {
            Some(Direction::South)
        } else if c == 'W' {
            Some(Direction::West)
        } else {
            None
        };
        r
    }

    /// Whether the seat belongs to the North-South pair.
    #[verifier::when_used_as_spec(is_ns)]
    pub fn north_south(self) -> (r: bool)
        ensures
            r == self.is_ns(),
    {
        match self {
            Direction::North | Direction::South => true,
            Direction::East | Direction::West => false,
        }
    }

    /// The seat's name in English.
    pub open spec fn spec_name(self) -> Seq<char> {
        match self {
            Direction::North => "North"@,
            Direction::East => "East"@,
            Direction::South => "South"@,
            Direction::West => "West"@,
        }
    }

    pub fn name(self) -> (r: &'static str)
        ensures
            r@ == self.spec_name(),
    {
        match self {
            Direction::North => "North",
            Direction::East => "East",
            Direction::South => "South",
            Direction::West => "West",
        }
    }

    /// The seat `n` places clockwise from this one.
    pub fn rotate(self, n: u8) -> (r: Direction)
        ensures
            r == self.plus(n as int),
    {
        let mut seat = self;
        let mut i: u8 = 0;
        let turns: u8 = n % 4;
        while i < turns
            invariant
                i <= turns < 4,
                seat == self.plus(i as int),
            decreases turns - i,
        {
            seat = seat.next();
            i = i + 1;
        }
        assert((self.index() + n) % 4 == (self.index() + n % 4) % 4);
        seat
    }
}

/// Going `a` places and then `b` places clockwise is going `a + b` places.
pub proof fn law_plus_adds(d: Direction, a: int, b: int)
    ensures
        d.plus(a).plus(b) == d.plus(a + b),
        d.plus(0) == d,
        d.plus(4) == d,
{
}

/// The four places round the table are different seats, and every seat is one
/// of them.
pub proof fn law_places_differ(d: Direction, a: int, b: int, e: Direction)
    requires
        0 <= a < 4,
        0 <= b < 4,
    ensures
        d.plus(a) == d.plus(b) <==> a == b,
        d.plus((e.index() - d.index()) % 4) == e,
{
}

/// The partner's partner, and the fourth seat to the left, is the seat itself.
pub proof fn law_table_is_round(d: Direction)
    ensures
        d.partner().partner() == d,
        d.next().next() == d.partner(),
        d.next().next().next().next() == d,
        d.next().is_ns() != d.is_ns(),
        d.partner().is_ns() == d.is_ns(),
{
}

/// East follows North, South follows East, West follows South and North follows
/// West; each place further is one more step that way.
pub proof fn law_clockwise(d: Direction, n: int)
    ensures
        Direction::North.next() == Direction::East,
        Direction::East.next() == Direction::South,
        Direction::South.next() == Direction::West,
        Direction::West.next() == Direction::North,
        d.plus(n).next() == d.plus(n + 1),
        d.is_ns() <==> d == Direction::North || d == Direction::North.next().next(),
{
}

/// A seat's letter is the first of its name, and names that seat and no other.
pub proof fn law_seat_letters(d: Direction, c: char)
    ensures
        d.spec_name().len() > 0 && d.spec_name()[0] == d.to_char(),
        Direction::named(c) == Some(d) <==> c == d.to_char(),
        Direction::North.to_char() == 'N' && Direction::South.to_char() == 'S',
        Direction::East.to_char() == 'E' && Direction::West.to_char() == 'W',
{
    reveal_strlit("North");
    reveal_strlit("East");
    reveal_strlit("South");
    reveal_strlit("West");
}

/// A set of seats.
#[derive(Clone, Copy, Debug, PartialEq, Eq, Structural)]
pub struct SeatSet {
    pub north: bool,
    pub east: bool,
    pub south: bool,
    pub west: bool,
}

impl SeatSet {
    pub open spec fn has(self, d: Direction) -> bool {
        match d {
            Direction::North => self.north,
            Direction::East => self.east,
            Direction::South => self.south,
            Direction::West => self.west,
        }
    }

    pub open spec fn with(self, d: Direction, on: bool) -> SeatSet {
        match d {
            Direction::North => SeatSet { north: on, ..self },
            Direction::East => SeatSet { east: on, ..self },
            Direction::South => SeatSet { south: on, ..self },
            Direction::West => SeatSet { west: on, ..self },
        }
    }

    pub open spec fn none() -> SeatSet {
        SeatSet { north: false, east: false, south: false, west: false }
    }

    /// The empty set.
    #[verifier::when_used_as_spec(none)]
    pub fn new() -> (r: SeatSet)
        ensures
            r == SeatSet::none(),
    {
        SeatSet { north: false, east: false, south: false, west: false }
    }

    pub fn contains(&self, d: Direction) -> (r: bool)
        ensures
            r == self.has(d),
    {
        match d {
            Direction::North => self.north,
            Direction::East => self.east,
            Direction::South => self.south,
            Direction::West => self.west,
        }
    }

    pub fn insert(&mut self, d: Direction)
        ensures
            *final(self) == old(self).with(d, true),
    {
        match d {
            Direction::North => { self.north = true; },
            Direction::East => { self.east = true; },
            Direction::South => { self.south = true; },
            Direction::West => { self.west = true; },
        }
    }

    pub fn remove(&mut self, d: Direction)
        ensures
            *final(self) == old(self).with(d, false),
    {
        match d {
            Direction::North => { self.north = false; },
            Direction::East => { self.east = false; },
            Direction::South => { self.south = false; },
            Direction::West => { self.west = false; },
        }
    }

    pub fn is_empty(&self) -> (r: bool)
        ensures
            r == (forall|d: Direction| !self.has(d)),
    {
        proof {
            assert(self.north == self.has(Direction::North));
            assert(self.east == self.has(Direction::East));
            assert(self.south == self.has(Direction::South));
            assert(self.west == self.has(Direction::West));
        }
        !self.north && !self.east && !self.south && !self.west
    }
}

/// A seat set changes at the given seat and nowhere else.
pub proof fn law_seat_set(s: SeatSet, d: Direction, e: Direction, on: bool)
    ensures
        s.with(d, on).has(e) == (if d == e { on } else { s.has(e) }),
        !SeatSet::none().has(d),
{
}

/// The four suits.
#[derive(Clone, Copy, Debug, PartialEq, Eq, Structural)]
pub enum Suit {
    Clubs,
    Diamonds,
    Hearts,
    Spades,
}

impl Suit {
    pub open spec fn spec_to_char(self) -> char {
        match self {
            Suit::Clubs => 'C',
            Suit::Diamonds => 'D',
            Suit::Hearts => 'H',
            Suit::Spades => 'S',
        }
    }

    /// The suit's letter.
    #[verifier::when_used_as_spec(spec_to_char)]
    pub fn to_char(self) -> (r: char)
        ensures
            r == self.spec_to_char(),
    {
        match self {
            Suit::Clubs => 'C',
            Suit::Diamonds => 'D',
            Suit::Hearts => 'H',
            Suit::Spades => 'S',
        }
    }

    /// The suit that a letter names.
    pub open spec fn named(c: char) -> Option<Suit> {
        if c == 'C' {
            Some(Suit::Clubs)
        } else if c == 'D' {
            Some(Suit::Diamonds)
        } else if c == 'H' {
            Some(Suit::Hearts)
        } else if c == 'S' {
            Some(Suit::Spades)
        } else {
            None
        }
    }

    /// The suit that a letter names.
    pub fn from_char(c: char) -> (r: Option<Suit>)
        ensures
            r == Suit::named(c),
            forall|s: Suit| r == Some(s) <==> c == #[trigger] s.to_char(),
    {
        let r = if c == 'C' {
            Some(Suit::Clubs)
        } else if c == 'D' {
            Some(Suit::Diamonds)
        } else if c == 'H' {
            Some(Suit::Hearts)
        } else if c == 'S' {
            Some(Suit::Spades)
        } else {
            None
        };
        r
    }
}

/// The thirteen ranks, ace high.
#[derive(Clone, Copy, Debug, PartialEq, Eq, Structural)]
pub enum Rank {
    Two,
    Three,
    Four,
    Five,
    Six,
    Seven,
    Eight,
    Nine,
    Ten,
    Jack,
    Queen,
    King,
    Ace,
}

impl Rank {
    /// Pip value: 2 for the two, 14 for the ace.
    pub open spec fn pips(self) -> int {
        match self {
            Rank::Two => 2,
            Rank::Three => 3,
            Rank::Four => 4,
            Rank::Five => 5,
            Rank::Six => 6,
            Rank::Seven => 7,
            Rank::Eight => 8,
            Rank::Nine => 9,
            Rank::Ten => 10,
            Rank::Jack => 11,
            Rank::Queen => 12,
            Rank::King => 13,
            Rank::Ace => 14,
        }
    }

    pub open spec fn spec_to_char(self) -> char {
        match self {
            Rank::Two => '2',
            Rank::Three => '3',
            Rank::Four => '4',
            Rank::Five => '5',
            Rank::Six => '6',
            Rank::Seven => '7',
            Rank::Eight => '8',
            Rank::Nine => '9',
            Rank::Ten => 'T',
            Rank::Jack => 'J',
            Rank::Queen => 'Q',
            Rank::King => 'K',
            Rank::Ace => 'A',
        }
    }

    pub fn value(self) -> (r: u8)
        ensures
            r == self.pips(),
    {
        match self {
            Rank::Two => 2,
            Rank::Three => 3,
            Rank::Four => 4,
            Rank::Five => 5,
            Rank::Six => 6,
            Rank::Seven => 7,
            Rank::Eight => 8,
            Rank::Nine => 9,
            Rank::Ten => 10,
            Rank::Jack => 11,
            Rank::Queen => 12,
            Rank::King => 13,
            Rank::Ace => 14,
        }
    }

    /// The rank's character, `T` for the ten.
    #[verifier::when_used_as_spec(spec_to_char)]
    pub fn to_char(self) -> (r: char)
        ensures
            r == self.spec_to_char(),
    {
        match self {
            Rank::Two => '2',
            Rank::Three => '3',
            Rank::Four => '4',
            Rank::Five => '5',
            Rank::Six => '6',
            Rank::Seven => '7',
            Rank::Eight => '8',
            Rank::Nine => '9',
            Rank::Ten => 'T',
            Rank::Jack => 'J',
            Rank::Queen => 'Q',
            Rank::King => 'K',
            Rank::Ace => 'A',
        }
    }

    /// The rank that a character names.
    pub open spec fn named(c: char) -> Option<Rank> {
        if c == '2' {
            Some(Rank::Two)
        } else if c == '3' {
            Some(Rank::Three)
        } else if c == '4' {
            Some(Rank::Four)
        } else if c == '5' {
            Some(Rank::Five)
        } else if c == '6' {
            Some(Rank::Six)
        } else if c == '7' {
            Some(Rank::Seven)
        } else if c == '8' {
            Some(Rank::Eight)
        } else if c == '9' {
            Some(Rank::Nine)
        } else if c == 'T' {
            Some(Rank::Ten)
        } else if c == 'J' {
            Some(Rank::Jack)
        } else if c == 'Q' {
            Some(Rank::Queen)
        } else if c == 'K' {
            Some(Rank::King)
        } else if c == 'A' {
            Some(Rank::Ace)
        } else {
            None
        }
    }

    /// The rank that a character names.
    pub fn from_char(c: char) -> (r: Option<Rank>)
        ensures
            r == Rank::named(c),
            forall|k: Rank| r == Some(k) <==> c == #[trigger] k.to_char(),
    {
        let r = if c == '2' {
            Some(Rank::Two)
        } else if c == '3' {
            Some(Rank::Three)
        } else if c == '4' {
            Some(Rank::Four)
        } else if c == '5' {
            Some(Rank::Five)
        } else if c == '6' {
            Some(Rank::Six)
        } else if c == '7' {
            Some(Rank::Seven)
        } else if c == '8' {
            Some(Rank::Eight)
        } else if c == '9' {
            Some(Rank::Nine)
        } else if c == 'T' {
            Some(Rank::Ten)
        } else if c == 'J' {
            Some(Rank::Jack)
        } else if c == 'Q' {
            Some(Rank::Queen)
        } else if c == 'K' {
            Some(Rank::King)
        } else if c == 'A' {
            Some(Rank::Ace)
        } else {
            None
        };
        r
    }
}

/// In the row of the ranks' characters from the two to the ace, each rank stands
/// as far up as its pips say, and each character names the rank it stands for.
pub proof fn law_ranks_ascend(rank: Rank, c: char)
    ensures
        2 <= rank.pips() <= 14,
        "23456789TJQKA"@.len() == 13,
        "23456789TJQKA"@[rank.pips() - 2] == rank.to_char(),
        Rank::named(c) == Some(rank) <==> c == rank.to_char(),
        Rank::Two.pips() == 2 && Rank::Ace.pips() == 14,
{
    reveal_strlit("23456789TJQKA");
}

/// A suit's letter names that suit and no other: the first of its English name.
pub proof fn law_suit_letters(suit: Suit, c: char)
    ensures
        Suit::named(c) == Some(suit) <==> c == suit.to_char(),
        suit.to_char() == (match suit {
            Suit::Clubs => 'C',
            Suit::Diamonds => 'D',
            Suit::Hearts => 'H',
            Suit::Spades => 'S',
        }),
{
}

/// A playing card.
#[derive(Clone, Copy, Debug, PartialEq, Eq, Structural)]
pub struct Card {
    pub suit: Suit,
    pub rank: Rank,
}

impl Card {
    pub open spec fn spec_new(suit: Suit, rank: Rank) -> Card {
        Card { suit, rank }
    }

    #[verifier::when_used_as_spec(spec_new)]
    pub fn new(suit: Suit, rank: Rank) -> (r: Card)
        ensures
            r == Card::spec_new(suit, rank),
    {
        Card { suit, rank }
    }

    /// The two-character code: suit letter, then rank character.
    pub open spec fn code(self) -> Seq<char> {
        seq![self.suit.to_char(), self.rank.to_char()]
    }

    /// The two-character code, such as `SA` or `HT`.
    pub fn to_code(&self) -> (r: String)
        ensures
            r@ == self.code(),
    {
        let mut s = String::new();
        s.push(self.suit.to_char());
        s.push(self.rank.to_char());
        assert(s@ =~= self.code());
        s
    }
}

/// The cards of a suit whose ranks a text lists.
pub open spec fn suited(suit: Suit, ranks: Seq<char>) -> Seq<Card>
    decreases ranks.len(),
{
    if ranks.len() == 0 {
        seq![]
    } else {
        let before = suited(suit, ranks.drop_last());
        match Rank::named(ranks.last()) {
            Some(rank) => before.push(Card { suit, rank }),
            None => before,
        }
    }
}

/// The hand that four lists of ranks describe, spades first.
pub open spec fn holding(
    spades: Seq<char>,
    hearts: Seq<char>,
    diamonds: Seq<char>,
    clubs: Seq<char>,
) -> Seq<Card> {
    suited(Suit::Spades, spades) + suited(Suit::Hearts, hearts) + suited(Suit::Diamonds, diamonds)
        + suited(Suit::Clubs, clubs)
}

/// Adds the cards of a suit whose ranks a text lists.
fn add_suited(cards: &mut Vec<Card>, suit: Suit, ranks: &str)
    ensures
        final(cards)@ == old(cards)@ + suited(suit, ranks@),
{
    let chars = crate::text::chars_of(ranks);
    let mut i: usize = 0;
    while i < chars.len()
        invariant
            i <= chars.len(),
            cards@ == old(cards)@ + suited(suit, chars@.subrange(0, i as int)),
        decreases chars.len() - i,
    {
        proof {
            let longer = chars@.subrange(0, i + 1);
            assert(longer.drop_last() =~= chars@.subrange(0, i as int));
            assert(longer.last() == chars@[i as int]);
        }
        if let Some(rank) = Rank::from_char(chars[i]) {
            cards.push(Card { suit, rank });
        }
        i = i + 1;
    }
    assert(chars@.subrange(0, i as int) =~= chars@);
}

/// The hand that four lists of ranks describe, spades first.
pub fn hand(spades: &str, hearts: &str, diamonds: &str, clubs: &str) -> (r: Vec<Card>)
    ensures
        r@ == holding(spades@, hearts@, diamonds@, clubs@),
{
    let mut cards: Vec<Card> = Vec::new();
    add_suited(&mut cards, Suit::Spades, spades);
    add_suited(&mut cards, Suit::Hearts, hearts);
    add_suited(&mut cards, Suit::Diamonds, diamonds);
    add_suited(&mut cards, Suit::Clubs, clubs);
    assert(cards@ =~= holding(spades@, hearts@, diamonds@, clubs@));
    cards
}

/// The ranks, highest first.
pub open spec fn ranks_down() -> Seq<Rank> {
    seq![
        Rank::Ace,
        Rank::King,
        Rank::Queen,
        Rank::Jack,
        Rank::Ten,
        Rank::Nine,
        Rank::Eight,
        Rank::Seven,
        Rank::Six,
        Rank::Five,
        Rank::Four,
        Rank::Three,
        Rank::Two,
    ]
}

/// A hand's cards of a suit among the `n` highest, by their ranks, highest
/// first.
pub open spec fn suit_text(cards: Seq<Card>, suit: Suit, n: int) -> Seq<char>
    decreases n,
{
    if n <= 0 {
        seq![]
    } else {
        let rank = ranks_down()[n - 1];
        let before = suit_text(cards, suit, n - 1);
        if cards.contains(Card { suit, rank }) {
            before.push(rank.to_char())
        } else {
            before
        }
    }
}

/// A hand in PBN's dot format: spades, hearts, diamonds and clubs, each by
/// their ranks, highest first.
pub open spec fn hand_text(cards: Seq<Card>) -> Seq<char> {
    suit_text(cards, Suit::Spades, 13) + "."@ + suit_text(cards, Suit::Hearts, 13) + "."@
        + suit_text(cards, Suit::Diamonds, 13) + "."@ + suit_text(cards, Suit::Clubs, 13)
}

/// Appends a hand's cards of a suit.
fn push_suit(out: &mut String, cards: &[Card], suit: Suit)
    ensures
        final(out)@ == old(out)@ + suit_text(cards@, suit, 13),
{
    let ranks = [
        Rank::Ace,
        Rank::King,
        Rank::Queen,
        Rank::Jack,
        Rank::Ten,
        Rank::Nine,
        Rank::Eight,
        Rank::Seven,
        Rank::Six,
        Rank::Five,
        Rank::Four,
        Rank::Three,
        Rank::Two,
    ];
    assert(ranks@ =~= ranks_down());
    let mut n: usize = 0;
    assert(out@ =~= old(out)@ + suit_text(cards@, suit, 0));
    while n < 13
        invariant
            n <= 13,
            ranks@ == ranks_down(),
            out@ == old(out)@ + suit_text(cards@, suit, n as int),
        decreases 13 - n,
    {
        let rank = ranks[n];
        if holds_card(cards, Card { suit, rank }) {
            out.push(rank.to_char());
        }
        n = n + 1;
    }
}

/// A hand in PBN's dot format, as in `AK97543.K.T3.AK7`.
pub fn hand_to_pbn(cards: &[Card]) -> (r: String)
    ensures
        r@ == hand_text(cards@),
{
    let mut s = String::new();
    push_suit(&mut s, cards, Suit::Spades);
    s.append(".");
    push_suit(&mut s, cards, Suit::Hearts);
    s.append(".");
    push_suit(&mut s, cards, Suit::Diamonds);
    s.append(".");
    push_suit(&mut s, cards, Suit::Clubs);
    assert(s@ =~= hand_text(cards@));
    s
}

/// A suit's text, as far as the `n` highest ranks go.
proof fn lemma_suit_text(cards: Seq<Card>, suit: Suit, n: int)
    requires
        0 <= n <= 13,
    ensures
        ({
            let text = suit_text(cards, suit, n);
            &&& forall|i: int|
                0 <= i < text.len() ==> {
                    &&& Rank::named(#[trigger] text[i]) is Some
                    &&& Rank::named(text[i])->0.pips() > 14 - n
                    &&& cards.contains(Card { suit, rank: Rank::named(text[i])->0 })
                }
            &&& forall|i: int, j: int|
                0 <= i < j < text.len() ==> Rank::named(#[trigger] text[i])->0.pips() > Rank::named(
                    #[trigger] text[j],
                )->0.pips()
            &&& forall|k: int|
                0 <= k < n && cards.contains(Card { suit, rank: ranks_down()[k] })
                    ==> text.contains((#[trigger] ranks_down()[k]).to_char())
        }),
    decreases n,
{
    if n > 0 {
        lemma_suit_text(cards, suit, n - 1);
        let rank = ranks_down()[n - 1];
        let before = suit_text(cards, suit, n - 1);
        let text = suit_text(cards, suit, n);
        assert(rank.pips() == 15 - n);
        assert forall|k: int|
            0 <= k < n && cards.contains(
                Card { suit, rank: ranks_down()[k] },
            ) implies text.contains((#[trigger] ranks_down()[k]).to_char()) by {
            let c = ranks_down()[k].to_char();
            if k < n - 1 {
                let i = choose|i: int| 0 <= i < before.len() && before[i] == c;
                assert(text[i] == c);
            } else {
                assert(text[before.len() as int] == c);
            }
        }
    }
}

/// In a suit's text a rank stands exactly if the hand holds the card, nothing but
/// ranks stands there, and a higher rank stands before a lower one.
pub proof fn law_suit_text(cards: Seq<Card>, suit: Suit, rank: Rank, i: int, j: int)
    ensures
        ({
            let text = suit_text(cards, suit, 13);
            &&& text.contains(rank.to_char()) <==> cards.contains(Card { suit, rank })
            &&& 0 <= i < text.len() ==> Rank::named(text[i]) is Some
            &&& 0 <= i < j < text.len() ==> Rank::named(text[i])->0.pips() > Rank::named(
                text[j],
            )->0.pips()
        }),
{
    lemma_suit_text(cards, suit, 13);
    let text = suit_text(cards, suit, 13);
    assert(ranks_down()[14 - rank.pips()] == rank);
    if text.contains(rank.to_char()) {
        let k = choose|k: int| 0 <= k < text.len() && text[k] == rank.to_char();
        assert(Rank::named(text[k]) == Some(rank));
    }
}

/// What stands in a text after so many occurrences of a character, up to the next.
pub open spec fn section(s: Seq<char>, c: char, k: int) -> Seq<char>
    decreases k,
{
    let i = first_index(s, c);
    if k <= 0 {
        s.subrange(0, i)
    } else if i >= s.len() {
        seq![]
    } else {
        section(s.subrange(i + 1, s.len() as int), c, k - 1)
    }
}

/// A text starts with its first section, and the rest has the others.
proof fn lemma_section(head: Seq<char>, c: char, rest: Seq<char>, k: int)
    requires
        !head.contains(c),
    ensures
        section(head, c, 0) == head,
        section(head + seq![c] + rest, c, 0) == head,
        k > 0 ==> section(head + seq![c] + rest, c, k) == section(rest, c, k - 1),
{
    let s = head + seq![c] + rest;
    let n = head.len() as int;
    assert forall|j: int| 0 <= j < n implies head[j] != c && s[j] != c by {
        assert(s[j] == head[j]);
        assert(head.contains(head[j]));
    }
    assert(s[n] == c);
    lemma_first_index(head, c, n);
    lemma_first_index(s, c, n);
    assert(head.subrange(0, n) =~= head);
    assert(s.subrange(0, n) =~= head);
    assert(s.subrange(n + 1, s.len() as int) =~= rest);
}

/// A suit's text holds ranks alone.
proof fn lemma_only_ranks(cards: Seq<Card>, suit: Suit)
    ensures
        !suit_text(cards, suit, 13).contains('.'),
        !suit_text(cards, suit, 13).contains(' '),
{
    lemma_suit_text(cards, suit, 13);
    let text = suit_text(cards, suit, 13);
    if text.contains('.') {
        let i = choose|i: int| 0 <= i < text.len() && text[i] == '.';
        assert(Rank::named(text[i]) is Some);
    }
    if text.contains(' ') {
        let i = choose|i: int| 0 <= i < text.len() && text[i] == ' ';
        assert(Rank::named(text[i]) is Some);
    }
}

/// Which section of a hand's text is a suit's: spades come first, clubs last.
pub open spec fn suit_section(suit: Suit) -> int {
    match suit {
        Suit::Spades => 0,
        Suit::Hearts => 1,
        Suit::Diamonds => 2,
        Suit::Clubs => 3,
    }
}

/// A hand's text has the suits between dots, spades, hearts, diamonds and clubs,
/// and in its suit's section stands every card that the hand holds, and no other.
pub proof fn law_hand_text(cards: Seq<Card>, card: Card)
    ensures
        ({
            let part = section(hand_text(cards), '.', suit_section(card.suit));
            &&& part == suit_text(cards, card.suit, 13)
            &&& part.contains(card.rank.to_char()) <==> cards.contains(card)
        }),
{
    reveal_strlit(".");
    assert("."@ =~= seq!['.']);
    let spades = suit_text(cards, Suit::Spades, 13);
    let hearts = suit_text(cards, Suit::Hearts, 13);
    let diamonds = suit_text(cards, Suit::Diamonds, 13);
    let clubs = suit_text(cards, Suit::Clubs, 13);
    lemma_only_ranks(cards, Suit::Spades);
    lemma_only_ranks(cards, Suit::Hearts);
    lemma_only_ranks(cards, Suit::Diamonds);
    lemma_only_ranks(cards, Suit::Clubs);
    let k = suit_section(card.suit);
    let second = diamonds + seq!['.'] + clubs;
    let first = hearts + seq!['.'] + second;
    assert(hand_text(cards) =~= spades + seq!['.'] + first);
    lemma_section(spades, '.', first, k);
    lemma_section(hearts, '.', second, k - 1);
    lemma_section(diamonds, '.', clubs, k - 2);
    lemma_section(clubs, '.', clubs, 0);
    law_suit_text(cards, card.suit, card.rank, 0, 0);
}

/// A list that names nothing but ranks describes as many cards.
pub proof fn lemma_suited_len(suit: Suit, ranks: Seq<char>)
    requires
        forall|i: int| 0 <= i < ranks.len() ==> Rank::named(#[trigger] ranks[i]) is Some,
    ensures
        suited(suit, ranks).len() == ranks.len(),
    decreases ranks.len(),
{
    if ranks.len() > 0 {
        let head = ranks.drop_last();
        assert(forall|i: int| 0 <= i < head.len() ==> head[i] == ranks[i]);
        lemma_suited_len(suit, head);
    }
}

/// A list of ranks describes the cards of its suit whose ranks stand in it, and
/// no others.
pub proof fn law_suited(suit: Suit, ranks: Seq<char>, card: Card)
    ensures
        suited(suit, ranks).contains(card) <==> card.suit == suit && ranks.contains(
            card.rank.to_char(),
        ),
    decreases ranks.len(),
{
    if ranks.len() > 0 {
        let head = ranks.drop_last();
        let n = ranks.len() - 1;
        let before = suited(suit, head);
        let all = suited(suit, ranks);
        law_suited(suit, head, card);
        law_ranks_ascend(card.rank, ranks.last());
        if before.contains(card) {
            let i = choose|i: int| 0 <= i < before.len() && before[i] == card;
            assert(all[i] == card);
        }
        if all.contains(card) {
            let i = choose|i: int| 0 <= i < all.len() && all[i] == card;
            if i < before.len() {
                assert(before[i] == card);
            }
        }
        if ranks.contains(card.rank.to_char()) {
            let i = choose|i: int| 0 <= i < ranks.len() && ranks[i] == card.rank.to_char();
            if i < n {
                assert(head[i] == ranks[i]);
            } else if card.suit == suit {
                assert(all[all.len() - 1] == card);
            }
        }
        if head.contains(card.rank.to_char()) {
            let i = choose|i: int| 0 <= i < head.len() && head[i] == card.rank.to_char();
            assert(ranks[i] == card.rank.to_char());
        }
        if Rank::named(ranks.last()) == Some(card.rank) {
            assert(ranks[n] == card.rank.to_char());
        }
    }
}

/// A hand that four lists describe holds a card exactly if its rank stands in the
/// list of its suit.
pub proof fn law_holding(
    spades: Seq<char>,
    hearts: Seq<char>,
    diamonds: Seq<char>,
    clubs: Seq<char>,
    card: Card,
)
    ensures
        holding(spades, hearts, diamonds, clubs).contains(card) <==> (match card.suit {
            Suit::Spades => spades,
            Suit::Hearts => hearts,
            Suit::Diamonds => diamonds,
            Suit::Clubs => clubs,
        }).contains(card.rank.to_char()),
{
    law_suited(Suit::Spades, spades, card);
    law_suited(Suit::Hearts, hearts, card);
    law_suited(Suit::Diamonds, diamonds, card);
    law_suited(Suit::Clubs, clubs, card);
    let a = suited(Suit::Spades, spades);
    let b = suited(Suit::Hearts, hearts);
    let c = suited(Suit::Diamonds, diamonds);
    let d = suited(Suit::Clubs, clubs);
    let all = holding(spades, hearts, diamonds, clubs);
    if all.contains(card) {
        let i = choose|i: int| 0 <= i < all.len() && all[i] == card;
        let ib = i - a.len();
        let ic = ib - b.len();
        let id = ic - c.len();
        if i < a.len() {
            assert(a[i] == card);
        } else if ib < b.len() {
            assert(b[ib] == card);
        } else if ic < c.len() {
            assert(c[ic] == card);
        } else {
            assert(d[id] == card);
        }
    }
    if a.contains(card) {
        let i = choose|i: int| 0 <= i < a.len() && a[i] == card;
        assert(all[i] == card);
    }
    if b.contains(card) {
        let i = choose|i: int| 0 <= i < b.len() && b[i] == card;
        assert(all[a.len() + i] == card);
    }
    if c.contains(card) {
        let i = choose|i: int| 0 <= i < c.len() && c[i] == card;
        assert(all[a.len() + b.len() + i] == card);
    }
    if d.contains(card) {
        let i = choose|i: int| 0 <= i < d.len() && d[i] == card;
        assert(all[a.len() + b.len() + c.len() + i] == card);
    }
}

/// The five strains, lowest first.
#[derive(Clone, Copy, Debug, PartialEq, Eq, Structural)]
pub enum Strain {
    Clubs,
    Diamonds,
    Hearts,
    Spades,
    NoTrump,
}

impl Strain {
    pub open spec fn spec_to_char(self) -> char {
        match self {
            Strain::Clubs => 'C',
            Strain::Diamonds => 'D',
            Strain::Hearts => 'H',
            Strain::Spades => 'S',
            Strain::NoTrump => 'N',
        }
    }

    /// The strain's letter, `N` for notrump.
    #[verifier::when_used_as_spec(spec_to_char)]
    pub fn to_char(self) -> (r: char)
        ensures
            r == self.spec_to_char(),
    {
        match self {
            Strain::Clubs => 'C',
            Strain::Diamonds => 'D',
            Strain::Hearts => 'H',
            Strain::Spades => 'S',
            Strain::NoTrump => 'N',
        }
    }
}

/// A call in an auction. `Continue` and `Blank` are placeholders that
/// teaching material uses; they are never legal at a live table.
#[derive(Clone, Copy, Debug, PartialEq, Eq, Structural)]
pub enum Call {
    Pass,
    Bid { level: u8, strain: Strain },
    Double,
    Redouble,
    Continue,
    Blank,
}

/// Which pairs are vulnerable.
#[derive(Clone, Copy, Debug, PartialEq, Eq, Structural)]
pub enum Vulnerability {
    Neither,
    NorthSouth,
    EastWest,
    Both,
}

impl Vulnerability {
    pub open spec fn text(self) -> Seq<char> {
        match self {
            Vulnerability::Neither => "None"@,
            Vulnerability::NorthSouth => "NS"@,
            Vulnerability::EastWest => "EW"@,
            Vulnerability::Both => "All"@,
        }
    }

    /// The vulnerability's PBN tag value.
    pub fn to_pbn(self) -> (r: &'static str)
        ensures
            r@ == self.text(),
    {
        match self {
            Vulnerability::Neither => "None",
            Vulnerability::NorthSouth => "NS",
            Vulnerability::EastWest => "EW",
            Vulnerability::Both => "All",
        }
    }

    pub open spec fn spec_is_vulnerable(self, seat: Direction) -> bool {
        match self {
            Vulnerability::Neither => false,
            Vulnerability::NorthSouth => seat.is_ns(),
            Vulnerability::EastWest => !seat.is_ns(),
            Vulnerability::Both => true,
        }
    }

    #[verifier::when_used_as_spec(spec_is_vulnerable)]
    pub fn is_vulnerable(self, seat: Direction) -> (r: bool)
        ensures
            r == self.spec_is_vulnerable(seat),
    {
        match self {
            Vulnerability::Neither => false,
            Vulnerability::NorthSouth => seat.north_south(),
            Vulnerability::EastWest => !seat.north_south(),
            Vulnerability::Both => true,
        }
    }
}

/// Partners are vulnerable together. If one pair alone is, the tag value is made
/// of the letters of its seats; else it says that none or all are.
pub proof fn law_vulnerability(v: Vulnerability, seat: Direction)
    ensures
        v.is_vulnerable(seat) == v.is_vulnerable(seat.partner()),
        v.is_vulnerable(seat) != v.is_vulnerable(seat.next()) ==> v.text().len() == 2 && (
        v.text().contains(seat.to_char()) <==> v.is_vulnerable(seat)),
        !v.is_vulnerable(seat) && !v.is_vulnerable(seat.next()) <==> v.text() == "None"@,
        v.is_vulnerable(seat) && v.is_vulnerable(seat.next()) <==> v.text() == "All"@,
{
    reveal_strlit("None");
    reveal_strlit("NS");
    reveal_strlit("EW");
    reveal_strlit("All");
    assert("NS"@ =~= seq!['N', 'S']);
    assert("EW"@ =~= seq!['E', 'W']);
    assert("NS"@[0] == 'N' && "NS"@[1] == 'S');
    assert("EW"@[0] == 'E' && "EW"@[1] == 'W');
    assert("None"@.len() == 4 && "All"@.len() == 3);
}

/// Copies a list of cards.
pub fn copy_cards(cards: &[Card]) -> (r: Vec<Card>)
    ensures
        r@ == cards@,
{
    let mut r: Vec<Card> = Vec::new();
    let mut i: usize = 0;
    while i < cards.len()
        invariant
            i <= cards.len(),
            r@ == cards@.subrange(0, i as int),
        decreases cards.len() - i,
    {
        r.push(cards[i]);
        i = i + 1;
    }
    r
}

/// Whether two lists hold the same cards, in the same order.
pub fn same_cards(a: &[Card], b: &[Card]) -> (r: bool)
    ensures
        r == (a@ == b@),
{
    if a.len() != b.len() {
        return false;
    }
    let mut i: usize = 0;
    while i < a.len()
        invariant
            i <= a.len(),
            a@.len() == b@.len(),
            forall|j: int| 0 <= j < i ==> a@[j] == b@[j],
        decreases a.len() - i,
    {
        if a[i] != b[i] {
            return false;
        }
        i = i + 1;
    }
    assert(a@ =~= b@);
    true
}

/// Copies a list of calls.
pub fn copy_calls(calls: &[Call]) -> (r: Vec<Call>)
    ensures
        r@ == calls@,
{
    let mut r: Vec<Call> = Vec::new();
    let mut i: usize = 0;
    while i < calls.len()
        invariant
            i <= calls.len(),
            r@ == calls@.subrange(0, i as int),
        decreases calls.len() - i,
    {
        r.push(calls[i]);
        i = i + 1;
    }
    r
}

/// The four hands, each in the order in which it was dealt or sorted.
#[derive(Debug)]
pub struct Deal {
    pub north: Vec<Card>,
    pub east: Vec<Card>,
    pub south: Vec<Card>,
    pub west: Vec<Card>,
}

/// What a deal holds.
#[verifier::ext_equal]
pub ghost struct DealView {
    pub north: Seq<Card>,
    pub east: Seq<Card>,
    pub south: Seq<Card>,
    pub west: Seq<Card>,
}

impl DealView {
    pub open spec fn hand(self, seat: Direction) -> Seq<Card> {
        match seat {
            Direction::North => self.north,
            Direction::East => self.east,
            Direction::South => self.south,
            Direction::West => self.west,
        }
    }

    /// The deal in PBN, North's hand first, then clockwise.
    pub open spec fn text(self) -> Seq<char> {
        "N:"@ + hand_text(self.north) + " "@ + hand_text(self.east) + " "@ + hand_text(self.south)
            + " "@ + hand_text(self.west)
    }

    pub open spec fn total_cards(self) -> nat {
        self.north.len() + self.east.len() + self.south.len() + self.west.len()
    }
}

impl View for Deal {
    type V = DealView;

    open spec fn view(&self) -> DealView {
        DealView { north: self.north@, east: self.east@, south: self.south@, west: self.west@ }
    }
}

impl Deal {
    /// The hand dealt to a seat.
    pub fn hand(&self, seat: Direction) -> (r: &Vec<Card>)
        ensures
            r@ == self@.hand(seat),
    {
        match seat {
            Direction::North => &self.north,
            Direction::East => &self.east,
            Direction::South => &self.south,
            Direction::West => &self.west,
        }
    }

    /// How many cards were dealt in all.
    pub fn total_cards(&self) -> (r: u128)
        ensures
            r == self@.total_cards(),
    {
        self.north.len() as u128 + self.east.len() as u128 + self.south.len() as u128
            + self.west.len() as u128
    }

    /// Adds a card to a seat's list.
    pub fn push(&mut self, seat: Direction, card: Card)
        ensures
            forall|d: Direction| #[trigger]
                final(self)@.hand(d) == (if d == seat {
                    old(self)@.hand(d).push(card)
                } else {
                    old(self)@.hand(d)
                }),
    {
        match seat {
            Direction::North => self.north.push(card),
            Direction::East => self.east.push(card),
            Direction::South => self.south.push(card),
            Direction::West => self.west.push(card),
        }
    }

    /// The deal in PBN, North's hand first, then clockwise.
    pub fn to_pbn(&self) -> (r: String)
        ensures
            r@ == self@.text(),
    {
        let mut s = "N:".to_owned();
        s.append(hand_to_pbn(self.north.as_slice()).as_str());
        s.append(" ");
        s.append(hand_to_pbn(self.east.as_slice()).as_str());
        s.append(" ");
        s.append(hand_to_pbn(self.south.as_slice()).as_str());
        s.append(" ");
        s.append(hand_to_pbn(self.west.as_slice()).as_str());
        s
    }

    /// No cards at all.
    pub fn empty() -> (r: Deal)
        ensures
            forall|d: Direction| #[trigger] r@.hand(d) == Seq::<Card>::empty(),
    {
        Deal { north: Vec::new(), east: Vec::new(), south: Vec::new(), west: Vec::new() }
    }

    pub fn copy(&self) -> (r: Deal)
        ensures
            r@ == self@,
    {
        Deal {
            north: copy_cards(self.north.as_slice()),
            east: copy_cards(self.east.as_slice()),
            south: copy_cards(self.south.as_slice()),
            west: copy_cards(self.west.as_slice()),
        }
    }
}

/// A hand's text holds no space.
proof fn lemma_hand_text_unbroken(cards: Seq<Card>)
    ensures
        !hand_text(cards).contains(' '),
{
    reveal_strlit(".");
    assert("."@ =~= seq!['.']);
    lemma_only_ranks(cards, Suit::Spades);
    lemma_only_ranks(cards, Suit::Hearts);
    lemma_only_ranks(cards, Suit::Diamonds);
    lemma_only_ranks(cards, Suit::Clubs);
    let a = suit_text(cards, Suit::Spades, 13);
    let b = suit_text(cards, Suit::Hearts, 13);
    let c = suit_text(cards, Suit::Diamonds, 13);
    let d = suit_text(cards, Suit::Clubs, 13);
    let text = hand_text(cards);
    if text.contains(' ') {
        let i = choose|i: int| 0 <= i < text.len() && text[i] == ' ';
        let ib = i - a.len() - 1;
        let ic = ib - b.len() - 1;
        let id = ic - c.len() - 1;
        if i < a.len() {
            assert(a[i] == ' ');
        } else if 0 <= ib < b.len() {
            assert(b[ib] == ' ');
        } else if 0 <= ic < c.len() {
            assert(c[ic] == ' ');
        } else if 0 <= id {
            assert(d[id] == ' ');
        }
    }
}

/// A deal's text starts with the seat whose hand comes first, North; then come
/// the hands between spaces, clockwise.
pub proof fn law_deal_text(deal: DealView, seat: Direction)
    ensures
        ({
            let text = deal.text();
            &&& text.len() >= 2 && text[0] == Direction::North.to_char() && text[1] == ':'
            &&& section(text.subrange(2, text.len() as int), ' ', seat.index()) == hand_text(
                deal.hand(seat),
            )
            &&& deal.hand(Direction::North.plus(seat.index())) == deal.hand(seat)
        }),
{
    reveal_strlit("N:");
    reveal_strlit(" ");
    assert(" "@ =~= seq![' ']);
    let north = hand_text(deal.north);
    let east = hand_text(deal.east);
    let south = hand_text(deal.south);
    let west = hand_text(deal.west);
    lemma_hand_text_unbroken(deal.north);
    lemma_hand_text_unbroken(deal.east);
    lemma_hand_text_unbroken(deal.south);
    lemma_hand_text_unbroken(deal.west);
    let k = seat.index();
    let text = deal.text();
    let second = south + seq![' '] + west;
    let first = east + seq![' '] + second;
    assert(text.subrange(2, text.len() as int) =~= north + seq![' '] + first);
    lemma_section(north, ' ', first, k);
    lemma_section(east, ' ', second, k - 1);
    lemma_section(south, ' ', west, k - 2);
    lemma_section(west, ' ', west, 0);
}

} // verus!
