//! Cardplay legality and trick resolution.

use vstd::prelude::*;

use crate::cards::{Card, Direction, Strain, Suit};

verus! {

pub open spec fn spec_trump_of(strain: Strain) -> Option<Suit> {
    match strain {
        Strain::Clubs => Some(Suit::Clubs),
        Strain::Diamonds => Some(Suit::Diamonds),
        Strain::Hearts => Some(Suit::Hearts),
        Strain::Spades => Some(Suit::Spades),
        Strain::NoTrump => None,
    }
}

/// Trump suit of a contract strain (None for notrump).
#[verifier::when_used_as_spec(spec_trump_of)]
pub fn trump_of(strain: Strain) -> (r: Option<Suit>)
    ensures
        r == spec_trump_of(strain),
{
    match strain {
        Strain::Clubs => Some(Suit::Clubs),
        Strain::Diamonds => Some(Suit::Diamonds),
        Strain::Hearts => Some(Suit::Hearts),
        Strain::Spades => Some(Suit::Spades),
        Strain::NoTrump => None,
    }
}

/// The cards of one suit, in the order in which they are held.
pub open spec fn of_suit(cards: Seq<Card>, suit: Suit) -> Seq<Card>
    decreases cards.len(),
{
    if cards.len() == 0 {
        seq![]
    } else {
        let rest = of_suit(cards.drop_last(), suit);
        if cards.last().suit == suit {
            rest.push(cards.last())
        } else {
            rest
        }
    }
}

/// What may be played from `remaining`: the led suit if it is held, else anything.
pub open spec fn playable(remaining: Seq<Card>, lead_suit: Option<Suit>) -> Seq<Card> {
    match lead_suit {
        None => remaining,
        Some(lead) => if of_suit(remaining, lead).len() == 0 {
            remaining
        } else {
            of_suit(remaining, lead)
        },
    }
}

/// Legal cards from `remaining` given the suit led to the current trick
/// (`None` when leading): must follow suit if able, else anything.
pub fn legal_cards(remaining: &[Card], lead_suit: Option<Suit>) -> (r: Vec<Card>)
    ensures
        r@ == playable(remaining@, lead_suit),
{
    match lead_suit {
        None => crate::cards::copy_cards(remaining),
        Some(lead) => {
            let mut of_lead: Vec<Card> = Vec::new();
            let mut i: usize = 0;
            while i < remaining.len()
                invariant
                    i <= remaining.len(),
                    of_lead@ == of_suit(remaining@.subrange(0, i as int), lead),
                decreases remaining.len() - i,
            {
                proof {
                    let longer = remaining@.subrange(0, i + 1);
                    assert(longer.drop_last() =~= remaining@.subrange(0, i as int));
                }
                if remaining[i].suit == lead {
                    of_lead.push(remaining[i]);
                }
                i = i + 1;
            }
            assert(remaining@.subrange(0, remaining.len() as int) =~= remaining@);
            if of_lead.len() == 0 {
                crate::cards::copy_cards(remaining)
            } else {
                of_lead
            }
        },
    }
}

/// Whether a list holds a card.
pub fn holds_card(cards: &[Card], card: Card) -> (r: bool)
    ensures
        r == cards@.contains(card),
{
    let mut i: usize = 0;
    while i < cards.len()
        invariant
            i <= cards.len(),
            forall|j: int| 0 <= j < i ==> cards@[j] != card,
        decreases cards.len() - i,
    {
        if cards[i] == card {
            return true;
        }
        i = i + 1;
    }
    false
}

/// Whether `card` is a legal play from `remaining` given the led suit.
pub fn is_legal_play(card: Card, remaining: &[Card], lead_suit: Option<Suit>) -> (r: bool)
    ensures
        r == playable(remaining@, lead_suit).contains(card),
{
    let legal = legal_cards(remaining, lead_suit);
    holds_card(legal.as_slice(), card)
}

/// A suit's cards are the cards held that are of the suit.
pub proof fn lemma_of_suit(cards: Seq<Card>, suit: Suit, card: Card)
    ensures
        of_suit(cards, suit).contains(card) <==> cards.contains(card) && card.suit == suit,
    decreases cards.len(),
{
    if cards.len() > 0 {
        let head = cards.drop_last();
        lemma_of_suit(head, suit, card);
        let rest = of_suit(head, suit);
        let whole = of_suit(cards, suit);
        if whole.contains(card) {
            let i = whole.index_of(card);
            if i < rest.len() {
                assert(rest[i] == card);
                assert(rest.contains(card));
                let j = head.index_of(card);
                assert(cards[j] == card);
            } else {
                assert(cards[cards.len() - 1] == card);
            }
        }
        if cards.contains(card) && card.suit == suit {
            let j = cards.index_of(card);
            if j < head.len() {
                assert(head[j] == card);
                let i = rest.index_of(card);
                assert(whole[i] == card);
            } else {
                assert(whole.last() == card);
            }
        }
    }
}

/// A legal card is one that is held, and that follows suit if any card held does.
pub proof fn law_follow_suit(remaining: Seq<Card>, lead_suit: Option<Suit>, card: Card)
    ensures
        playable(remaining, lead_suit).contains(card) <==> {
            &&& remaining.contains(card)
            &&& lead_suit matches Some(lead) ==> card.suit == lead || forall|c: Card|
                remaining.contains(c) ==> #[trigger] c.suit != lead
        },
{
    if let Some(lead) = lead_suit {
        lemma_of_suit(remaining, lead, card);
        if of_suit(remaining, lead).len() == 0 {
            assert forall|c: Card| remaining.contains(c) implies #[trigger] c.suit != lead by {
                lemma_of_suit(remaining, lead, c);
            }
        } else {
            let first = of_suit(remaining, lead)[0];
            assert(of_suit(remaining, lead).contains(first));
            lemma_of_suit(remaining, lead, first);
        }
    }
}

/// Whoever holds a card has a legal one.
pub proof fn law_some_card_is_legal(remaining: Seq<Card>, lead_suit: Option<Suit>)
    ensures
        remaining.len() > 0 <==> playable(remaining, lead_suit).len() > 0,
{
    if let Some(lead) = lead_suit {
        if of_suit(remaining, lead).len() > 0 {
            let first = of_suit(remaining, lead)[0];
            assert(of_suit(remaining, lead).contains(first));
            lemma_of_suit(remaining, lead, first);
        }
    }
}

/// How much a card counts in a trick: trumps above the led suit, which is
/// above everything else; within a suit, by rank.
pub open spec fn strength(card: Card, lead_suit: Suit, trump: Option<Suit>) -> int {
    if trump == Some(card.suit) {
        100 + card.rank.pips()
    } else if card.suit == lead_suit {
        card.rank.pips()
    } else {
        0
    }
}

/// Position of the first strongest card among the first `n` plays.
pub open spec fn best(plays: Seq<Card>, trump: Option<Suit>, n: int) -> int
    decreases n,
{
    if n <= 1 {
        0
    } else {
        let b = best(plays, trump, n - 1);
        if strength(plays[n - 1], plays[0].suit, trump) > strength(plays[b], plays[0].suit, trump) {
            n - 1
        } else {
            b
        }
    }
}

/// The seat that wins a trick.
pub open spec fn winner_of(leader: Direction, plays: Seq<Card>, trump: Option<Suit>) -> Direction {
    leader.plus(best(plays, trump, plays.len() as int))
}

/// Winner of a completed trick. `plays` is chronological (index 0 led),
/// `leader` is the seat that played `plays[0]`.
pub fn trick_winner(leader: Direction, plays: &[Card; 4], trump: Option<Suit>) -> (r: Direction)
    ensures
        r == winner_of(leader, plays@, trump),
{
    let lead_suit = plays[0].suit;
    let mut winner: usize = 0;
    let mut i: usize = 1;
    while i < 4
        invariant
            1 <= i <= 4,
            winner < i,
            lead_suit == plays@[0].suit,
            winner == best(plays@, trump, i as int),
        decreases 4 - i,
    {
        if beats(plays[i], plays[winner], lead_suit, trump) {
            winner = i;
        }
        i = i + 1;
    }
    leader.rotate(winner as u8)
}

/// True if `a` beats `b` in the same trick. Trump beats non-trump; otherwise
/// higher rank in the lead suit wins; off-suit non-trump can never win.
fn beats(a: Card, b: Card, lead_suit: Suit, trump: Option<Suit>) -> (r: bool)
    ensures
        r == (strength(a, lead_suit, trump) > strength(b, lead_suit, trump)),
{
    let a_trump = trump == Some(a.suit);
    let b_trump = trump == Some(b.suit);
    if a_trump && !b_trump {
        return true;
    }
    if !a_trump && b_trump {
        return false;
    }
    if a_trump && b_trump {
        return a.rank.value() > b.rank.value();
    }
    if a.suit == lead_suit && b.suit != lead_suit {
        return true;
    }
    if a.suit != lead_suit && b.suit == lead_suit {
        return false;
    }
    if a.suit == lead_suit && b.suit == lead_suit {
        return a.rank.value() > b.rank.value();
    }
    false
}

/// No card of a trick is stronger than the winning one, and any that is as
/// strong was played later.
pub proof fn law_winner_is_strongest(plays: Seq<Card>, trump: Option<Suit>, n: int)
    requires
        1 <= n <= plays.len(),
    ensures
        0 <= best(plays, trump, n) < n,
        forall|i: int|
            #![trigger plays[i]]
            0 <= i < n ==> {
                let s = strength(plays[i], plays[0].suit, trump);
                let w = strength(plays[best(plays, trump, n)], plays[0].suit, trump);
                s <= w && (i < best(plays, trump, n) ==> s < w)
            },
    decreases n,
{
    if n > 1 {
        law_winner_is_strongest(plays, trump, n - 1);
    }
}

/// The winning card is a trump if one was played, and else of the led suit.
pub proof fn law_trump_or_lead_wins(plays: Seq<Card>, trump: Option<Suit>)
    requires
        plays.len() > 0,
    ensures
        ({
            let won = plays[best(plays, trump, plays.len() as int)];
            let ruffed = exists|i: int| 0 <= i < plays.len() && trump == Some(#[trigger] plays[i].suit);
            if ruffed {
                trump == Some(won.suit)
            } else {
                won.suit == plays[0].suit
            }
        }),
{
    law_winner_is_strongest(plays, trump, plays.len() as int);
    assert(strength(plays[0], plays[0].suit, trump) >= 2);
}

/// The trump suit of a contract bears the letter of the contract's strain; only
/// notrump has none.
pub proof fn law_trump_bears_the_letter(strain: Strain)
    ensures
        trump_of(strain) matches Some(suit) ==> suit.to_char() == strain.to_char(),
        trump_of(strain) is None <==> strain is NoTrump,
{
}

/// A trick is won by the seat that sits as far round from the leader as the
/// winning card was played after the lead. That card is a trump if one was
/// played and else of the suit led, and no card of its suit in the trick is
/// higher.
pub proof fn law_trick_winner(leader: Direction, plays: Seq<Card>, trump: Option<Suit>)
    requires
        plays.len() > 0,
    ensures
        exists|w: int|
            {
                &&& 0 <= w < plays.len()
                &&& winner_of(leader, plays, trump) == #[trigger] leader.plus(w)
                &&& (trump == Some(plays[w].suit) || (plays[w].suit == plays[0].suit && forall|i: int|
                    0 <= i < plays.len() ==> trump != Some((#[trigger] plays[i]).suit)))
                &&& forall|i: int|
                    #![trigger plays[i]]
                    0 <= i < plays.len() && plays[i].suit == plays[w].suit ==> plays[i].rank.pips()
                        <= plays[w].rank.pips()
            },
{
    let n = plays.len() as int;
    law_winner_is_strongest(plays, trump, n);
    law_trump_or_lead_wins(plays, trump);
    let w = best(plays, trump, n);
    assert(winner_of(leader, plays, trump) == leader.plus(w));
    assert forall|i: int|
        #![trigger plays[i]]
        0 <= i < plays.len() && plays[i].suit == plays[w].suit implies plays[i].rank.pips()
        <= plays[w].rank.pips() by {
        assert(strength(plays[i], plays[0].suit, trump) <= strength(
            plays[w],
            plays[0].suit,
            trump,
        ));
    }
    if trump != Some(plays[w].suit) {
        assert forall|i: int| 0 <= i < plays.len() implies trump != Some(
            (#[trigger] plays[i]).suit,
        ) by {}
    }
}

} // verus!
