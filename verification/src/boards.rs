//! Board sets: what a deal source delivers, and what is played.

use vstd::prelude::*;
use vstd::string::*;

use crate::cards::{Card, Deal, DealView, Direction, Vulnerability};
use crate::table::{scripted, BoardSetup, BoardView, PlayLine, PlaySequence};
use crate::text::{decimal, push_decimal};

verus! {

/// A board as a deal source records it.
#[derive(Debug)]
pub struct ParsedBoard {
    pub number: Option<u32>,
    pub dealer: Option<Direction>,
    pub vulnerable: Vulnerability,
    pub deal: Deal,
    pub play: Option<PlaySequence>,
}

pub open spec fn spec_standard_dealer(board_number: u32) -> Direction {
    Direction::at(board_number - 1)
}

/// Standard duplicate dealer rotation: board 1 → N, 2 → E, 3 → S, 4 → W, …
#[verifier::when_used_as_spec(spec_standard_dealer)]
pub fn standard_dealer(board_number: u32) -> (r: Direction)
    ensures
        r == spec_standard_dealer(board_number),
{
    let turn: u32 = board_number.wrapping_sub(1) % 4;
    match turn {
        0 => Direction::North,
        1 => Direction::East,
        2 => Direction::South,
        _ => Direction::West,
    }
}

/// The line that a recorded play scripts, if it scripts anything.
pub open spec fn line_of(play: Option<PlaySequence>) -> Option<DealView> {
    match play {
        Some(p) => if exists|d: Direction| #[trigger]
            scripted(p.tricks@, d) != Seq::<Card>::empty() {
            Some(
                DealView {
                    north: scripted(p.tricks@, Direction::North),
                    east: scripted(p.tricks@, Direction::East),
                    south: scripted(p.tricks@, Direction::South),
                    west: scripted(p.tricks@, Direction::West),
                },
            )
        } else {
            None
        },
        None => None,
    }
}

/// The board that is played for the `i`-th recorded board.
pub open spec fn board_of(b: ParsedBoard, i: int) -> BoardView {
    let number = match b.number {
        Some(n) => n,
        None => (i + 1) as u32,
    };
    BoardView {
        number,
        dealer: match b.dealer {
            Some(d) => d,
            None => standard_dealer(number),
        },
        vulnerable: b.vulnerable,
        deal: b.deal@,
        play_line: line_of(b.play),
    }
}

/// The first board, at or after `from`, that is not a full deal; the length if
/// all are.
pub open spec fn first_short(boards: Seq<ParsedBoard>, from: int) -> int
    decreases boards.len() - from,
{
    if from >= boards.len() {
        boards.len() as int
    } else if boards[from].deal@.total_cards() != 52 {
        from
    } else {
        first_short(boards, from + 1)
    }
}

/// What is wrong with a board that is not a full deal.
pub open spec fn short_board_words(boards: Seq<ParsedBoard>, i: int) -> Seq<char> {
    "board "@ + decimal((i + 1) as nat) + " has "@ + decimal(boards[i].deal@.total_cards())
        + " cards (need 52)"@
}

/// Says what is wrong with the `i`-th board, which has `total` cards.
pub(crate) fn short_board(i: usize, total: u128) -> (r: String)
    ensures
        r@ == "board "@ + decimal((i + 1) as nat) + " has "@ + decimal(total as nat)
            + " cards (need 52)"@,
{
    let mut e = "board ".to_owned();
    push_decimal(&mut e, i as u128 + 1);
    e.append(" has ");
    push_decimal(&mut e, total);
    e.append(" cards (need 52)");
    e
}

/// The board that is played for the `i`-th recorded board.
pub(crate) fn setup_board(b: &ParsedBoard, i: usize) -> (r: BoardSetup)
    requires
        i < u32::MAX,
    ensures
        r@ == board_of(*b, i as int),
{
    let number: u32 = match b.number {
        Some(n) => n,
        None => i as u32 + 1,
    };
    let dealer = match b.dealer {
        Some(d) => d,
        None => standard_dealer(number),
    };
    let play_line = PlayLine::from_sequence(b.play.as_ref());
    let board = BoardSetup {
        number,
        dealer,
        vulnerable: b.vulnerable,
        deal: b.deal.copy(),
        play_line,
    };
    proof {
        if board.play_line is Some {
            let line = board.play_line->0;
            let tricks = b.play->0.tricks@;
            assert(line@.hand(Direction::North) == scripted(tricks, Direction::North));
            assert(line@.hand(Direction::East) == scripted(tricks, Direction::East));
            assert(line@.hand(Direction::South) == scripted(tricks, Direction::South));
            assert(line@.hand(Direction::West) == scripted(tricks, Direction::West));
        }
        assert(board@ =~= board_of(*b, i as int));
    }
    board
}

/// Turns what a deal source delivered into the session's ordered board list.
/// Boards without a number get 1-based sequence numbers; boards without a
/// dealer get the standard rotation (board 1 → N, 2 → E, …). Every board must
/// be a full deal, and there must be one.
pub fn parse_boards(boards: &Vec<ParsedBoard>) -> (r: Result<Vec<BoardSetup>, String>)
    requires
        boards@.len() <= u32::MAX,
    ensures
        match r {
            Ok(out) => {
                &&& boards@.len() > 0
                &&& first_short(boards@, 0) == boards@.len()
                &&& out@.len() == boards@.len()
                &&& forall|i: int|
                    0 <= i < boards@.len() ==> (#[trigger] out@[i])@ == board_of(boards@[i], i)
            },
            Err(e) => if boards@.len() == 0 {
                e@ == "no boards in PBN"@
            } else {
                &&& first_short(boards@, 0) < boards@.len()
                &&& e@ == short_board_words(boards@, first_short(boards@, 0))
            },
        },
{
    let mut out: Vec<BoardSetup> = Vec::new();
    let mut i: usize = 0;
    while i < boards.len()
        invariant
            i <= boards@.len() <= u32::MAX,
            out@.len() == i,
            first_short(boards@, 0) == first_short(boards@, i as int),
            forall|j: int| 0 <= j < i ==> (#[trigger] out@[j])@ == board_of(boards@[j], j),
        decreases boards.len() - i,
    {
        let b = &boards[i];
        let total: u128 = b.deal.total_cards();
        if total != 52 {
            let e = short_board(i, total);
            assert(e@ == short_board_words(boards@, i as int));
            return Err(e);
        }
        let board = setup_board(b, i);
        out.push(board);
        i = i + 1;
    }
    if out.len() == 0 {
        return Err("no boards in PBN".to_owned());
    }
    Ok(out)
}

/// The boards of a set, or what is wrong with it. The set is what a reader made
/// of a text, or why it could make nothing of it.
pub open spec fn set_of(read: Result<Vec<ParsedBoard>, String>) -> Result<
    Seq<BoardView>,
    Seq<char>,
> {
    match read {
        Err(e) => Err("bad PBN: "@ + e@),
        Ok(boards) => if first_short(boards@, 0) < boards@.len() {
            Err(short_board_words(boards@, first_short(boards@, 0)))
        } else if boards@.len() == 0 {
            Err("no boards in PBN"@)
        } else {
            Ok(Seq::new(boards@.len(), |i: int| board_of(boards@[i], i)))
        },
    }
}

/// `parse_boards` on what a reader made of a text.
pub fn read_set(read: &Result<Vec<ParsedBoard>, String>) -> (r: Result<Vec<BoardSetup>, String>)
    requires
        read is Ok ==> read->Ok_0@.len() <= u32::MAX,
    ensures
        match r {
            Ok(boards) => set_of(*read) is Ok && set_of(*read)->Ok_0 == Seq::new(
                boards@.len(),
                |i: int| boards@[i]@,
            ),
            Err(e) => set_of(*read) is Err && set_of(*read)->Err_0 == e@,
        },
{
    match read {
        Ok(boards) => {
            let r = parse_boards(boards);
            proof {
                if r is Ok {
                    assert(set_of(*read)->Ok_0 =~= Seq::new(
                        r->Ok_0@.len(),
                        |i: int| r->Ok_0@[i]@,
                    ));
                }
            }
            r
        },
        Err(e) => {
            let mut words = "bad PBN: ".to_owned();
            words.append(e.as_str());
            Err(words)
        },
    }
}

/// North deals the first board, and each following board is dealt by the next
/// seat clockwise.
pub proof fn law_dealers_in_turn(n: u32)
    ensures
        standard_dealer(1) == Direction::North,
        n < u32::MAX ==> standard_dealer((n + 1) as u32) == standard_dealer(n).next(),
        n + 4 <= u32::MAX ==> standard_dealer((n + 4) as u32) == standard_dealer(n),
{
}

/// A recorded board is played as it was recorded. Where it has no number it is
/// counted, from one; where it has no dealer the dealer goes by the number.
pub proof fn law_board_as_recorded(b: ParsedBoard, i: int)
    requires
        0 <= i < u32::MAX,
    ensures
        ({
            let board = board_of(b, i);
            &&& b.number matches Some(n) ==> board.number == n
            &&& b.number is None ==> board.number == i + 1
            &&& b.dealer matches Some(d) ==> board.dealer == d
            &&& b.dealer is None ==> board.dealer == standard_dealer(board.number)
            &&& board.vulnerable == b.vulnerable && board.deal == b.deal@
            &&& b.play is None ==> board.play_line is None
        }),
{
}

/// A recorded play scripts each seat's cards in the order of the tricks; a
/// record without a card scripts nothing.
pub proof fn law_line_as_recorded(play: Option<PlaySequence>, seat: Direction)
    requires
        play is Some,
    ensures
        line_of(play) matches Some(line) ==> line.hand(seat) == scripted(play->0.tricks@, seat),
        scripted(play->0.tricks@, seat).len() > 0 ==> line_of(play) is Some,
        (forall|d: Direction| (#[trigger] scripted(play->0.tricks@, d)).len() == 0) ==> line_of(
            play,
        ) is None,
{
    let tricks = play->0.tricks@;
    if forall|d: Direction| (#[trigger] scripted(tricks, d)).len() == 0 {
        assert forall|d: Direction| #[trigger] scripted(tricks, d) == Seq::<Card>::empty() by {
            assert(scripted(tricks, d).len() == 0);
        }
    }
    if scripted(tricks, seat).len() > 0 {
        assert(scripted(tricks, seat) != Seq::<Card>::empty());
    }
}

/// A set is good exactly if it could be read, has a board, and every board has
/// fifty-two cards; then it has as many boards, each as it was recorded. Else
/// the first short board is named, with its place, from one, and its cards.
pub proof fn law_sets(boards: Vec<ParsedBoard>, error: String, k: int)
    requires
        0 <= k <= boards@.len(),
        forall|j: int| 0 <= j < k ==> (#[trigger] boards@[j]).deal@.total_cards() == 52,
        k < boards@.len() ==> boards@[k].deal@.total_cards() != 52,
    ensures
        set_of(Err(error)) is Err,
        set_of(Ok(boards)) is Ok <==> k == boards@.len() && boards@.len() > 0,
        set_of(Ok(boards)) matches Ok(set) ==> set.len() == boards@.len() && forall|i: int|
            0 <= i < set.len() ==> #[trigger] set[i] == board_of(boards@[i], i),
        k < boards@.len() ==> set_of(Ok(boards)) == Err::<Seq<BoardView>, Seq<char>>(
            "board "@ + decimal((k + 1) as nat) + " has "@ + decimal(
                boards@[k].deal@.total_cards(),
            ) + " cards (need 52)"@,
        ),
{
    lemma_first_short(boards@, 0, k);
}

/// The first board that is not a full deal, if there is one.
proof fn lemma_first_short(boards: Seq<ParsedBoard>, from: int, k: int)
    requires
        0 <= from <= k <= boards.len(),
        forall|j: int| from <= j < k ==> (#[trigger] boards[j]).deal@.total_cards() == 52,
        k < boards.len() ==> boards[k].deal@.total_cards() != 52,
    ensures
        first_short(boards, from) == k,
    decreases k - from,
{
    if from < k {
        assert(boards[from].deal@.total_cards() == 52);
        lemma_first_short(boards, from + 1, k);
    }
}

} // verus!
