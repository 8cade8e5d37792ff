//! Auctions and cardplay.

use bridge_table_service::cards::{Call, Card, Direction, Rank, Strain, Suit};
use bridge_table_service::engine::auction::{contract, is_complete, is_legal, next_caller};
use bridge_table_service::engine::play::{is_legal_play, legal_cards, trick_winner, trump_of};

fn call(s: &str) -> Call {
    match s {
        "Pass" => Call::Pass,
        "X" => Call::Double,
        "XX" => Call::Redouble,
        _ => {
            let level = s[..1].parse().unwrap();
            let strain = match &s[1..] {
                "C" => Strain::Clubs,
                "D" => Strain::Diamonds,
                "H" => Strain::Hearts,
                "S" => Strain::Spades,
                "NT" => Strain::NoTrump,
                other => panic!("no strain {other}"),
            };
            Call::Bid { level, strain }
        }
    }
}

fn calls(s: &str) -> Vec<Call> {
    s.split_whitespace().map(call).collect()
}

fn card(s: &str) -> Card {
    let mut ch = s.chars();
    Card::new(
        Suit::from_char(ch.next().unwrap()).unwrap(),
        Rank::from_char(ch.next().unwrap()).unwrap(),
    )
}

fn cards(s: &str) -> Vec<Card> {
    s.split_whitespace().map(card).collect()
}

use Direction::{East, North, South, West};

#[test]
fn passed_out_is_complete_with_no_contract() {
    let a = calls("Pass Pass Pass Pass");
    assert!(is_complete(&a));
    assert!(contract(North, &a).is_none());
}

#[test]
fn three_passes_end_after_bid() {
    let a = calls("1S Pass Pass Pass");
    assert!(is_complete(&a));
    assert!(!is_complete(&calls("1S Pass Pass")));
    assert!(!is_complete(&calls("Pass Pass Pass")));
}

#[test]
fn insufficient_bid_illegal() {
    let a = calls("1S");
    assert!(!is_legal(North, &a, &call("1H")));
    assert!(!is_legal(North, &a, &call("1S")));
    assert!(is_legal(North, &a, &call("1NT")));
    assert!(is_legal(North, &a, &call("2C")));
}

#[test]
fn double_only_of_opponents_bid() {
    // N opens 1S; E may double...
    assert!(is_legal(North, &calls("1S"), &Call::Double));
    // ...but S (partner) may not double N's bid.
    assert!(!is_legal(North, &calls("1S Pass"), &Call::Double));
    // After 1S-P-P, W may double (reopening).
    assert!(is_legal(North, &calls("1S Pass Pass"), &Call::Double));
    // No double with no bid on the table.
    assert!(!is_legal(North, &calls("Pass"), &Call::Double));
    // No double of a double.
    assert!(!is_legal(North, &calls("1S X"), &Call::Double));
}

#[test]
fn redouble_only_of_opponents_double() {
    // N 1S, E X → S may redouble.
    assert!(is_legal(North, &calls("1S X"), &Call::Redouble));
    // N 1S, E X, S P → W may NOT redouble partner's double.
    assert!(!is_legal(North, &calls("1S X Pass"), &Call::Redouble));
    // N 1S, E X, S P, W P → N may redouble (it's opponents' double).
    assert!(is_legal(North, &calls("1S X Pass Pass"), &Call::Redouble));
    // No redouble without a double.
    assert!(!is_legal(North, &calls("1S"), &Call::Redouble));
}

#[test]
fn no_calls_after_completion() {
    let a = calls("1S Pass Pass Pass");
    assert!(!is_legal(North, &a, &Call::Pass));
    assert!(!is_legal(North, &a, &call("2S")));
}

#[test]
fn teaching_placeholders_never_legal() {
    assert!(!is_legal(North, &[], &Call::Continue));
    assert!(!is_legal(North, &[], &Call::Blank));
}

#[test]
fn declarer_is_first_to_name_strain_not_last_bidder() {
    // N opens 1NT, S raises to 3NT: declarer must be NORTH.
    let a = calls("1NT Pass 3NT Pass Pass Pass");
    let c = contract(North, &a).unwrap();
    assert_eq!(c.declarer, North);
    assert_eq!(c.level, 3);
    assert_eq!(c.strain, Strain::NoTrump);
    assert_eq!(c.opening_leader(), East);
    assert_eq!(c.dummy(), South);
}

#[test]
fn declarer_strain_named_first_by_partner() {
    // E deals. E: 1H, W: 4H → declarer East (named hearts first).
    let a = calls("1H Pass 4H Pass Pass Pass");
    let c = contract(East, &a).unwrap();
    assert_eq!(c.declarer, East);
    assert_eq!(c.opening_leader(), South);
}

#[test]
fn opponents_naming_same_strain_does_not_steal_declarership() {
    // N deals: N 1C, E 1H, S Pass, W 4H, all pass.
    // Declaring side is EW; first of EW to name hearts is E.
    let a = calls("1C 1H Pass 4H Pass Pass Pass");
    let c = contract(North, &a).unwrap();
    assert_eq!(c.declarer, East);
}

#[test]
fn doubled_state_tracked() {
    let a = calls("1S X Pass Pass Pass");
    let c = contract(North, &a).unwrap();
    assert!(c.doubled);
    assert!(!c.redoubled);
    assert_eq!(c.to_pbn(), "1SX");

    let a = calls("1S X XX Pass Pass Pass");
    let c = contract(North, &a).unwrap();
    assert!(!c.doubled);
    assert!(c.redoubled);
    assert_eq!(c.to_pbn(), "1SXX");

    // A later bid clears the double.
    let a = calls("1S X 2S Pass Pass Pass");
    let c = contract(North, &a).unwrap();
    assert!(!c.doubled && !c.redoubled);
}

#[test]
fn next_caller_rotates_from_dealer() {
    assert_eq!(next_caller(West, &[]), West);
    assert_eq!(next_caller(West, &calls("Pass")), North);
    assert_eq!(next_caller(West, &calls("Pass Pass Pass Pass Pass")), North);
}

#[test]
fn the_highest_bid_is_the_contract() {
    let a = calls("Pass 1H 1S 2H 2S Pass Pass X Pass Pass Pass");
    let c = contract(North, &a).unwrap();
    assert_eq!(c.to_pbn(), "2SX");
    assert_eq!(c.declarer, South);
}

#[test]
fn leading_any_card_is_legal() {
    let rem = cards("SA H2 D7");
    assert_eq!(legal_cards(&rem, None), rem);
}

#[test]
fn must_follow_suit_when_able() {
    let rem = cards("SA S2 H9");
    let legal = legal_cards(&rem, Some(Suit::Spades));
    assert_eq!(legal, cards("SA S2"));
    assert!(is_legal_play(card("S2"), &rem, Some(Suit::Spades)));
    assert!(!is_legal_play(card("H9"), &rem, Some(Suit::Spades)));
}

#[test]
fn void_in_lead_suit_frees_all_cards() {
    let rem = cards("H9 D3 C8");
    assert_eq!(legal_cards(&rem, Some(Suit::Spades)), rem);
}

#[test]
fn highest_of_lead_suit_wins_in_nt() {
    // N leads S5, E plays SK, S plays SA, W discards H2.
    let plays = [card("S5"), card("SK"), card("SA"), card("H2")];
    assert_eq!(trick_winner(North, &plays, None), South);
}

#[test]
fn offsuit_high_card_cannot_win() {
    // E leads D2; S's off-suit HA is worthless in NT; W's D3 wins.
    let plays = [card("D2"), card("HA"), card("D3"), card("H2")];
    assert_eq!(trick_winner(East, &plays, None), West);
}

#[test]
fn trump_beats_lead_suit() {
    // W leads SA; E (3rd to play) ruffs with H2 and wins.
    let plays = [card("SA"), card("S3"), card("H2"), card("S9")];
    assert_eq!(trick_winner(West, &plays, Some(Suit::Hearts)), East);
}

#[test]
fn overruff_wins() {
    // N leads D4; E ruffs H2; S overruffs H9 and wins.
    let plays = [card("D4"), card("H2"), card("H9"), card("D8")];
    assert_eq!(trick_winner(North, &plays, Some(Suit::Hearts)), South);
}

#[test]
fn trump_lead_highest_trump_wins() {
    // S leads HQ; E (4th to play) takes the HA.
    let plays = [card("HQ"), card("HK"), card("H2"), card("HA")];
    assert_eq!(trick_winner(South, &plays, Some(Suit::Hearts)), East);
}

#[test]
fn trump_of_strains() {
    assert_eq!(trump_of(Strain::NoTrump), None);
    assert_eq!(trump_of(Strain::Spades), Some(Suit::Spades));
}
