//! Rooms: seats, reconnects and the bots' grace periods.

use bridge_table_service::cards::Direction;
use bridge_table_service::rooms::{
    demo_board, BoardMode, BotMode, RoomInner, SeatLabel, TakeoverGrace, TAKEOVER_AFTER,
    TAKEOVER_AFTER_ON_TURN,
};

use Direction::{East, North, South, West};

fn inner_with(subs: &[&str]) -> RoomInner {
    let mut inner = RoomInner::new(demo_board(), TakeoverGrace::standard());
    for sub in subs {
        inner.seat_or_rebind(sub, sub);
    }
    inner
}

#[test]
fn demo_board_parses_and_is_full() {
    let b = demo_board();
    assert_eq!(b.deal.total_cards(), 52);
    assert_eq!(b.dealer, Direction::North);
}

#[test]
fn seating_fills_south_first_and_rebinds() {
    let mut inner = inner_with(&[]);
    assert_eq!(inner.seat_or_rebind("u1", "Alice"), Some(Direction::South));
    assert_eq!(inner.seat_or_rebind("u2", "Bob"), Some(Direction::West));
    // Reconnect keeps the seat.
    assert_eq!(inner.seat_or_rebind("u1", "Alice"), Some(Direction::South));
    assert_eq!(inner.seat_or_rebind("u3", "Cam"), Some(Direction::North));
    assert_eq!(inner.seat_or_rebind("u4", "Dee"), Some(Direction::East));
    // Fifth person kibitzes.
    assert_eq!(inner.seat_or_rebind("u5", "Eve"), None);
}

#[test]
fn empty_seat_is_always_bot_controlled() {
    let inner = inner_with(&[]);
    let now = 1_000;
    assert!(inner.seat_bot_controlled(Direction::South, true, now));
    assert!(inner.seat_bot_controlled(Direction::South, false, now));
}

#[test]
fn connected_occupant_is_never_bot_controlled() {
    let inner = inner_with(&["u1"]); // u1 → South
    let now = 1_000;
    assert!(!inner.seat_bot_controlled(Direction::South, true, now));
    assert!(!inner.seat_bot_controlled(Direction::South, false, now));
}

#[test]
fn takeover_waits_out_the_grace_period() {
    let mut inner = inner_with(&["u1"]);
    inner.mark_disconnected("u1", 5_000);
    let dropped = inner.seats.get(South).unwrap().disconnected_at.unwrap();
    assert_eq!(dropped, 5_000);

    // Within both grace periods: still human-driven.
    let t = dropped + 19 * 1_000;
    assert!(!inner.seat_bot_controlled(Direction::South, true, t));
    assert!(!inner.seat_bot_controlled(Direction::South, false, t));

    // Past the on-turn grace (20s) but not the idle one (60s).
    let t = dropped + 21 * 1_000;
    assert!(inner.seat_bot_controlled(Direction::South, true, t));
    assert!(!inner.seat_bot_controlled(Direction::South, false, t));

    // Past both.
    let t = dropped + 61 * 1_000;
    assert!(inner.seat_bot_controlled(Direction::South, true, t));
    assert!(inner.seat_bot_controlled(Direction::South, false, t));
    assert_eq!((TAKEOVER_AFTER_ON_TURN, TAKEOVER_AFTER), (20_000, 60_000));
}

#[test]
fn reconnect_reclaims_the_seat_immediately() {
    let mut inner = inner_with(&["u1"]);
    inner.mark_disconnected("u1", 5_000);
    let dropped = inner.seats.get(South).unwrap().disconnected_at.unwrap();
    let long_gone = dropped + 300 * 1_000;
    assert!(inner.seat_bot_controlled(Direction::South, true, long_gone));

    // Same sub reconnecting rebinds the SAME seat and ends the takeover
    // (mode check, not a re-seat — the binding never moved).
    assert_eq!(inner.seat_or_rebind("u1", "u1"), Some(Direction::South));
    assert!(!inner.seat_bot_controlled(Direction::South, true, long_gone));
}

#[test]
fn a_human_dummy_plays_for_a_bot_declarer() {
    // u1 sits South; North (the declarer) is a bot.
    let inner = inner_with(&["u1"]);
    assert_eq!(inner.declarer_side_controller(North, true, 0), South);
    assert_eq!(inner.declarer_side_controller(South, true, 0), South);
    // Nobody sits East or West: the bot declares.
    assert_eq!(inner.declarer_side_controller(East, true, 0), East);
}

#[test]
fn a_seat_is_taken_once_and_moved_by_exchange() {
    let mut inner = inner_with(&[]);
    assert!(inner.try_seat(North, "u1", "Ann"));
    assert!(!inner.try_seat(North, "u2", "Ben"));
    assert!(inner.try_seat(East, "u2", "Ben"));
    inner.move_occupant(North, East);
    assert_eq!(inner.seats.find_sub("u1"), Some(East));
    assert_eq!(inner.seats.find_sub("u2"), Some(North));
    let gone = inner.vacate(East).unwrap();
    assert_eq!(gone.sub, "u1");
    assert!(inner.vacate(East).is_none());
    assert_eq!(inner.seats.len(), 1);
}

#[test]
fn labels_tell_humans_bots_and_empty_seats_apart() {
    let mut inner = inner_with(&["u1"]);
    inner.set_bot(West);
    inner.set_empty(North);
    let labels = inner.seats_json();
    assert!(matches!(labels.get(South), SeatLabel::Human { connected: true, .. }));
    assert!(matches!(labels.get(West), SeatLabel::Bot));
    assert!(matches!(labels.get(North), SeatLabel::Empty));
    // A seat emptied on purpose has no bot.
    assert!(!inner.seat_bot_controlled(North, true, 0));
    assert!(inner.seat_bot_controlled(West, true, 0));
}

#[test]
fn modes_go_by_their_names() {
    assert_eq!(BotMode::parse("random"), Some(BotMode::Random));
    assert_eq!(BotMode::parse("rules"), Some(BotMode::Rules));
    assert_eq!(BotMode::parse("real"), None);
    for mode in [BotMode::Real, BotMode::Random, BotMode::Rules, BotMode::Slow] {
        assert_eq!(BotMode::from_name(mode.as_str()), Some(mode));
    }
    assert_eq!(BotMode::from_name("nope"), None);
    assert_eq!(BotMode::from_u8(1), BotMode::Random);
    assert_eq!(BotMode::from_u8(2), BotMode::Rules);
    assert_eq!(BotMode::from_u8(3), BotMode::Slow);
    assert_eq!(BotMode::from_u8(9), BotMode::Real);
    for mode in [BoardMode::BidAndPlay, BoardMode::BidOnly, BoardMode::PlayOnly] {
        assert_eq!(BoardMode::parse(mode.as_str()), Some(mode));
    }
    assert_eq!(BoardMode::parse("nope"), None);
}
