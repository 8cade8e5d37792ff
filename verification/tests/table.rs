//! Tables: the log, its fold, undo and snapshots.

use bridge_table_service::cards::{
    hand, Call, Card, Deal, Direction, Rank, Strain, Suit, Vulnerability,
};
use bridge_table_service::table::{
    Action, ActionError, BoardSetup, LegalActions, Phase, PlayLine, PlaySequence, PlayTrick,
    TableState,
};

use Direction::{East, North, South, West};

fn deal() -> Deal {
    Deal {
        north: hand("K843", "T542", "J6", "863"),
        east: hand("AQJ7", "K", "Q75", "AT942"),
        south: hand("962", "AJ7", "KT82", "J75"),
        west: hand("T5", "Q9863", "A943", "KQ"),
    }
}

fn setup() -> TableState {
    TableState::new(BoardSetup {
        number: 1,
        dealer: North,
        vulnerable: Vulnerability::Neither,
        deal: deal(),
        play_line: None,
    })
}

fn call(s: &str) -> Call {
    match s {
        "Pass" => Call::Pass,
        "1H" => Call::Bid { level: 1, strain: Strain::Hearts },
        "1S" => Call::Bid { level: 1, strain: Strain::Spades },
        "2H" => Call::Bid { level: 2, strain: Strain::Hearts },
        "2S" => Call::Bid { level: 2, strain: Strain::Spades },
        "1NT" => Call::Bid { level: 1, strain: Strain::NoTrump },
        "3NT" => Call::Bid { level: 3, strain: Strain::NoTrump },
        other => panic!("no call {other}"),
    }
}

fn apply_calls(t: &mut TableState, seq: &[(Direction, &str)]) {
    for (seat, c) in seq {
        t.apply(Action::Call { seat: *seat, call: call(c) })
            .unwrap_or_else(|e| panic!("{seat:?} {c}: {}", e.message(c)));
    }
}

fn to_3nt(t: &mut TableState) {
    apply_calls(
        t,
        &[
            (North, "Pass"),
            (East, "1NT"),
            (South, "Pass"),
            (West, "3NT"),
            (North, "Pass"),
            (East, "Pass"),
            (South, "Pass"),
        ],
    );
}

fn pass_out(t: &mut TableState) {
    apply_calls(t, &[(North, "Pass"), (East, "Pass"), (South, "Pass"), (West, "Pass")]);
}

#[test]
fn full_auction_reaches_play_phase() {
    let mut t = setup();
    to_3nt(&mut t);
    let f = t.fold();
    assert_eq!(f.phase, Phase::Play);
    let c = f.contract.unwrap();
    assert_eq!(c.declarer, East); // E named NT first
    assert_eq!(f.next_to_act, Some(South)); // opening leader = declarer.next()
}

#[test]
fn wrong_seat_rejected() {
    let mut t = setup();
    let err = t
        .apply(Action::Call { seat: East, call: call("1S") })
        .unwrap_err()
        .message("1S");
    assert!(err.contains("turn"), "{err}");
}

#[test]
fn illegal_call_rejected() {
    let mut t = setup();
    apply_calls(&mut t, &[(North, "1S")]);
    let err = t
        .apply(Action::Call { seat: East, call: call("1H") })
        .unwrap_err()
        .message("1H");
    assert!(err.contains("illegal"), "{err}");
}

#[test]
fn play_enforces_follow_suit_and_turn() {
    let mut t = setup();
    to_3nt(&mut t);
    // South leads (declarer East). South holds 962.AJ7.KT82.J75.
    let s2 = Card::new(Suit::Spades, Rank::Two);
    t.apply(Action::Play { seat: South, card: s2 }).unwrap();
    let f = t.fold();
    assert!(f.opening_lead_made);
    assert_eq!(f.next_to_act, Some(West));

    // West holds T5.Q9863.A943.KQ — has spades, so a heart is illegal.
    let hq = Card::new(Suit::Hearts, Rank::Queen);
    let err = t
        .apply(Action::Play { seat: West, card: hq })
        .unwrap_err()
        .message("");
    assert!(err.contains("illegal"), "{err}");

    let st = Card::new(Suit::Spades, Rank::Ten);
    t.apply(Action::Play { seat: West, card: st }).unwrap();
}

#[test]
fn card_not_held_rejected() {
    let mut t = setup();
    to_3nt(&mut t);
    // South does not hold the SA.
    let sa = Card::new(Suit::Spades, Rank::Ace);
    assert!(t.apply(Action::Play { seat: South, card: sa }).is_err());
}

#[test]
fn undo_rewinds_and_refolds() {
    let mut t = setup();
    apply_calls(&mut t, &[(North, "1S"), (East, "Pass"), (South, "2S")]);
    assert_eq!(t.seq(), 3);

    t.undo_to(1).unwrap();
    assert_eq!(t.seq(), 1);
    let f = t.fold();
    assert_eq!(f.calls, vec![call("1S")]);
    assert_eq!(f.next_to_act, Some(East));

    // The rewound line can now diverge.
    t.apply(Action::Call { seat: East, call: call("2H") }).unwrap();
    assert_eq!(t.fold().calls, vec![call("1S"), call("2H")]);

    assert!(t.undo_to(5).is_err());
}

#[test]
fn passed_out_board_is_complete() {
    let mut t = setup();
    pass_out(&mut t);
    let f = t.fold();
    assert_eq!(f.phase, Phase::Complete);
    assert_eq!(f.next_to_act, None);
}

#[test]
fn snapshot_shows_every_hand_to_everyone() {
    // Every seat is fully visible to any viewer (the client redacts locally).
    let mut t = setup();
    apply_calls(&mut t, &[(North, "1S")]);

    let snap = t.snapshot(false);
    for seat in [North, East, South, West] {
        assert_eq!(snap.hands.hand(seat).len(), 13, "seat {seat:?}");
    }
}

#[test]
fn snapshot_shows_original_deal_when_complete() {
    // A passed-out board reaches Complete with all 52 cards unplayed —
    // the review view shows every ORIGINAL hand.
    let mut t = setup();
    pass_out(&mut t);

    let snap = t.snapshot(false);
    assert_eq!(snap.phase, Phase::Complete);
    for seat in [North, East, South, West] {
        assert_eq!(snap.hands.hand(seat).len(), 13, "seat {seat:?}");
        assert_eq!(snap.hands.hand(seat), deal().hand(seat));
    }
}

#[test]
fn snapshot_shows_dummy_before_and_after_opening_lead() {
    let mut t = setup();
    to_3nt(&mut t);
    // Dummy is West (declarer East) — always visible.
    let snap = t.snapshot(false);
    assert_eq!(snap.hands.west, deal().west);

    let s2 = Card::new(Suit::Spades, Rank::Two);
    t.apply(Action::Play { seat: South, card: s2 }).unwrap();
    let snap = t.snapshot(false);
    assert_eq!(snap.hands.west, deal().west);
    assert_eq!(snap.hands.south.len(), 12);
}

#[test]
fn legal_cards_are_for_the_seat_on_turn() {
    let mut t = setup();
    to_3nt(&mut t);
    // South is on opening lead (declarer East). The snapshot is
    // viewer-independent: legal names the seat on turn.
    let snap = t.snapshot(false);
    match snap.legal {
        Some(LegalActions::Cards { seat, cards }) => {
            assert_eq!(seat, South);
            assert_eq!(cards.len(), 13);
        }
        other => panic!("{other:?}"),
    }
}

#[test]
fn bid_only_boards_end_at_the_contract() {
    let mut t = setup();
    to_3nt(&mut t);
    let snap = t.snapshot(true);
    assert_eq!(snap.phase, Phase::Complete);
    assert!(snap.legal.is_none());
    assert_eq!(snap.hands.south, deal().south);
}

#[test]
fn each_refusal_has_its_words() {
    let mut t = setup();
    let play = Action::Play { seat: North, card: Card::new(Suit::Spades, Rank::King) };
    assert_eq!(t.apply(play), Err(ActionError::NotInPlay));
    assert_eq!(ActionError::NotInPlay.message(""), "not in the play phase");
    assert_eq!(
        t.apply(Action::Call { seat: East, call: Call::Pass }),
        Err(ActionError::NotTurnToCall(East))
    );
    assert_eq!(ActionError::NotTurnToCall(East).message(""), "not East's turn to call");
    apply_calls(&mut t, &[(North, "1S")]);
    let low = call("1H");
    assert_eq!(
        t.apply(Action::Call { seat: East, call: low }),
        Err(ActionError::IllegalCall(low))
    );
    assert_eq!(ActionError::IllegalCall(low).message("1H"), "illegal call 1H");
    assert_eq!(t.undo_to(2), Err(ActionError::UndoForward));
    assert_eq!(ActionError::UndoForward.message(""), "cannot undo forward");
    t.undo_to(0).unwrap();
    to_3nt(&mut t);
    assert_eq!(
        t.apply(Action::Call { seat: West, call: Call::Pass }),
        Err(ActionError::AuctionOver)
    );
    assert_eq!(ActionError::AuctionOver.message(""), "auction is over");
    let st = Card::new(Suit::Spades, Rank::Ten);
    assert_eq!(
        t.apply(Action::Play { seat: West, card: st }),
        Err(ActionError::NotTurnToPlay(West))
    );
    assert_eq!(ActionError::NotTurnToPlay(West).message(""), "not West's turn to play");
    assert_eq!(
        t.apply(Action::Play { seat: South, card: st }),
        Err(ActionError::IllegalCard(st))
    );
    assert_eq!(ActionError::IllegalCard(st).message(""), "illegal card ST");
}

/// Plays a board out, every seat taking the first legal card.
fn play_out(t: &mut TableState) {
    loop {
        let card = match t.snapshot(false).legal {
            Some(LegalActions::Cards { seat, cards }) => Action::Play { seat, card: cards[0] },
            _ => break,
        };
        t.apply(card).unwrap();
    }
}

#[test]
fn a_played_board_has_thirteen_tricks_and_a_result() {
    let mut t = setup();
    to_3nt(&mut t);
    assert!(t.board_result_json().is_none());
    play_out(&mut t);
    assert_eq!(t.seq(), 7 + 52);
    let f = t.fold();
    assert_eq!(f.phase, Phase::Complete);
    assert_eq!(f.tricks_ns + f.tricks_ew, 13);
    assert_eq!(f.completed_tricks.len(), 13);
    let result = t.board_result_json().unwrap();
    let c = result.contract.unwrap();
    assert!(!result.passed_out);
    assert_eq!(c.declarer_tricks, f.tricks_ew);
    assert_eq!(c.made, f.tricks_ew as i16 - 9);
    // Undoing the last card takes the result back.
    t.undo_to(58).unwrap();
    assert!(t.board_result_json().is_none());
    assert_eq!(t.fold().completed_tricks.len(), 12);
}

#[test]
fn every_card_is_held_or_played_once() {
    let mut t = setup();
    to_3nt(&mut t);
    let mut deck: Vec<String> = Vec::new();
    for seat in [North, East, South, West] {
        deck.extend(t.board.deal.hand(seat).iter().map(|c| c.to_code()));
    }
    deck.sort();
    assert_eq!(deck.len(), 52);
    loop {
        let f = t.fold();
        let mut seen: Vec<String> = f.played.iter().map(|(_, c)| c.to_code()).collect();
        for seat in [North, East, South, West] {
            let left = t.remaining(seat, &f);
            let plays = f.played.iter().filter(|(s, _)| *s == seat).count();
            assert_eq!(left.len(), 13 - plays);
            seen.extend(left.iter().map(|c| c.to_code()));
        }
        seen.sort();
        assert_eq!(seen, deck);
        match t.snapshot(false).legal {
            Some(LegalActions::Cards { seat, cards }) => {
                t.apply(Action::Play { seat, card: cards[0] }).unwrap();
            }
            _ => break,
        }
    }
    assert_eq!(t.fold().played.len(), 52);
}

#[test]
fn a_passed_out_board_has_no_contract() {
    let mut t = setup();
    pass_out(&mut t);
    let result = t.board_result_json().unwrap();
    assert!(result.passed_out);
    assert!(result.contract.is_none());
    assert_eq!((result.tricks_ns, result.tricks_ew), (0, 0));
}

#[test]
fn a_recorded_line_is_followed_until_play_departs_from_it() {
    let c = |s: Suit, r: Rank| Some(Card::new(s, r));
    let line = PlayLine::from_sequence(Some(&PlaySequence {
        tricks: vec![
            PlayTrick {
                leader: South,
                cards: [
                    c(Suit::Spades, Rank::Two),
                    c(Suit::Spades, Rank::Ten),
                    c(Suit::Spades, Rank::King),
                    c(Suit::Spades, Rank::Ace),
                ],
            },
            PlayTrick { leader: East, cards: [c(Suit::Diamonds, Rank::Five), None, None, None] },
        ],
    }))
    .unwrap();
    assert_eq!(line.card_for(South, 0), c(Suit::Spades, Rank::Two));
    assert_eq!(line.card_for(East, 0), c(Suit::Spades, Rank::Ace));
    assert_eq!(line.card_for(East, 1), c(Suit::Diamonds, Rank::Five));
    assert_eq!(line.card_for(East, 2), None);
    let on = [
        (South, Card::new(Suit::Spades, Rank::Two)),
        (West, Card::new(Suit::Spades, Rank::Ten)),
    ];
    assert!(!line.diverged(&on));
    let off = [
        (South, Card::new(Suit::Spades, Rank::Two)),
        (West, Card::new(Suit::Spades, Rank::Five)),
    ];
    assert!(line.diverged(&off));
    // A rewind past the divergence is on book again.
    assert!(!line.diverged(&off[..1]));
    // Past the end of a seat's cards.
    let past = [
        (South, Card::new(Suit::Spades, Rank::Two)),
        (South, Card::new(Suit::Spades, Rank::Six)),
    ];
    assert!(line.diverged(&past));
    assert!(PlayLine::from_sequence(Some(&PlaySequence { tricks: vec![] })).is_none());
    assert!(PlayLine::from_sequence(None).is_none());
}
