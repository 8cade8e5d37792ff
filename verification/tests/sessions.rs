//! Sessions: placing, seat control, rounds, the lobby and the roster.

use bridge_table_service::cards::{hand, Deal, Direction, Vulnerability};
use bridge_table_service::events::{Event, Notice};
use bridge_table_service::registry::Registry;
use bridge_table_service::rooms::{BoardMode, BotMode, SeatLabel, TakeoverGrace};
use bridge_table_service::seating::{PolicyItem, PolicyRequest};
use bridge_table_service::sessions::placing::Placement;
use bridge_table_service::sessions::{
    account_id_of, parse_boards, ParsedBoard, SeatPolicy, Session, SessionKind, Side, SideSet,
};
use bridge_table_service::boards::read_set;
use bridge_table_service::table::{BoardSetup, Phase};

use Direction::{East, North, South, West};

// Two full deals: the same four hands, one seat further on the second board.
fn two_parsed() -> Vec<ParsedBoard> {
    vec![
        ParsedBoard {
            number: Some(1),
            dealer: Some(North),
            vulnerable: Vulnerability::Neither,
            deal: Deal {
                north: hand("K843", "T542", "J6", "863"),
                east: hand("AQJ7", "K", "Q75", "AT942"),
                south: hand("962", "AJ7", "KT82", "J75"),
                west: hand("T5", "Q9863", "A943", "KQ"),
            },
            play: None,
        },
        ParsedBoard {
            number: Some(2),
            dealer: Some(East),
            vulnerable: Vulnerability::NorthSouth,
            deal: Deal {
                north: hand("AQJ7", "K", "Q75", "AT942"),
                east: hand("962", "AJ7", "KT82", "J75"),
                south: hand("T5", "Q9863", "A943", "KQ"),
                west: hand("K843", "T542", "J6", "863"),
            },
            play: None,
        },
    ]
}

fn two_boards() -> Vec<BoardSetup> {
    parse_boards(&two_parsed()).unwrap()
}

fn session(kind: SessionKind, policy: SeatPolicy, tables: usize) -> Session {
    Session::new("s1".into(), kind, "owner-1".into(), policy, two_boards(), tables)
}

fn idle(kind: SessionKind, policy: SeatPolicy, tables: usize) -> Session {
    Session::new("s1".into(), kind, "o".into(), policy, vec![], tables)
}

fn at(p: &Placement) -> (usize, Option<Direction>) {
    (p.table, p.seat)
}

fn ids(s: &Session, tables: &[usize]) -> Vec<String> {
    tables.iter().map(|i| s.rooms[*i].id.clone()).collect()
}

fn seated_at(s: &Session, sub: &str) -> Option<(String, Direction)> {
    s.find_seated(sub).map(|(i, seat)| (s.rooms[i].id.clone(), seat))
}

#[test]
fn parses_boards_with_numbers_and_dealers() {
    let boards = two_boards();
    assert_eq!(boards.len(), 2);
    assert_eq!(boards[0].number, 1);
    assert_eq!(boards[0].dealer, North);
    assert_eq!(boards[1].number, 2);
    assert_eq!(boards[1].dealer, East);
    assert!(read_set(&Err("not pbn at all".into())).is_err());
    assert!(parse_boards(&vec![]).is_err());
}

#[test]
fn boards_without_numbers_are_counted_and_short_boards_refused() {
    let mut parsed = two_parsed();
    for b in &mut parsed {
        b.number = None;
        b.dealer = None;
    }
    let boards = parse_boards(&parsed).unwrap();
    assert_eq!((boards[0].number, boards[0].dealer), (1, North));
    assert_eq!((boards[1].number, boards[1].dealer), (2, East));
    parsed[1].deal.west.pop();
    assert_eq!(parse_boards(&parsed).unwrap_err(), "board 2 has 51 cards (need 52)");
    assert_eq!(parse_boards(&vec![]).unwrap_err(), "no boards in PBN");
    assert_eq!(read_set(&Err("line 3".into())).unwrap_err(), "bad PBN: line 3");
}

fn request(mode: Option<&str>, pattern: Option<&str>) -> PolicyRequest {
    PolicyRequest {
        mode: mode.map(|s| s.into()),
        pattern: pattern.map(|s| s.into()),
        seats: None,
        sides: None,
    }
}

fn item(text: &str) -> PolicyItem {
    PolicyItem { text: Some(text.into()), written: format!("\"{text}\"") }
}

#[test]
fn seat_policy_parsing() {
    assert_eq!(
        SeatPolicy::from_value(Some(&request(Some("manual"), None))).unwrap(),
        SeatPolicy::Manual
    );
    let mut one = request(Some("auto"), Some("one_per_seat"));
    one.seats = Some(vec![item("S")]);
    assert_eq!(
        SeatPolicy::from_value(Some(&one)).unwrap(),
        SeatPolicy::OnePerSeat(vec![South])
    );
    let mut pairs = request(Some("auto"), Some("pairs"));
    pairs.sides = Some(vec![item("NS")]);
    assert_eq!(
        SeatPolicy::from_value(Some(&pairs)).unwrap(),
        SeatPolicy::Pairs(vec![Side::NS])
    );
    assert_eq!(
        SeatPolicy::from_value(Some(&request(None, None))).unwrap(),
        SeatPolicy::FirstFree
    );
    assert_eq!(SeatPolicy::from_value(None).unwrap(), SeatPolicy::FirstFree);
    assert!(SeatPolicy::from_value(Some(&request(Some("auto"), Some("nope")))).is_err());
    assert!(SeatPolicy::from_value(Some(&request(Some("auto"), Some("one_per_seat")))).is_err());
}

#[test]
fn one_per_seat_deals_arrivals_across_tables() {
    let mut s = session(SessionKind::TeacherSet, SeatPolicy::OnePerSeat(vec![South]), 2);
    let p1 = s.place("g1", "Ann");
    let p2 = s.place("g2", "Ben");
    assert_eq!(at(&p1), (0, Some(South)));
    assert_eq!(at(&p2), (1, Some(South)));
    // Policy seats full across both tables: a third table is auto-created.
    let p3 = s.place("g3", "Cyd");
    assert_eq!(at(&p3), (2, Some(South)));
    assert_eq!(s.table_count(), 3);
    // Reconnect rebinds the same seat.
    let p1b = s.place("g1", "Ann");
    assert_eq!(at(&p1b), (0, Some(South)));
}

#[test]
fn pairs_fills_a_side_per_table() {
    let mut s = session(SessionKind::Adhoc, SeatPolicy::Pairs(vec![Side::NS]), 2);
    let p1 = s.place("g1", "Ann");
    let p2 = s.place("g2", "Ben");
    let p3 = s.place("g3", "Cyd");
    let p4 = s.place("g4", "Dee");
    assert_eq!(at(&p1), (0, Some(South)));
    assert_eq!(at(&p2), (0, Some(North)));
    assert_eq!(at(&p3), (1, Some(South)));
    assert_eq!(at(&p4), (1, Some(North)));
    // Both NS sides full → a third table is created for the 5th arrival.
    let p5 = s.place("g5", "Eve");
    assert_eq!(at(&p5), (2, Some(South)));
}

#[test]
fn manual_policy_kibitzes_until_assigned() {
    let mut s = session(SessionKind::TeacherSet, SeatPolicy::Manual, 2);
    let p1 = s.place("g1", "Ann");
    assert_eq!(p1.seat, None);
    assert!(s.kibitzers.contains_key("g1"));
    // Simulate teacher assignment, then a reconnect rebinds the seat.
    assert!(s.rooms[1].state.try_seat(South, "g1", "Ann"));
    s.remove_kibitzer("g1");
    let p1b = s.place("g1", "Ann");
    assert_eq!(at(&p1b), (1, Some(South)));
}

#[test]
fn first_free_round_robins_tables() {
    let mut s = session(SessionKind::Adhoc, SeatPolicy::FirstFree, 2);
    let p1 = s.place("g1", "Ann");
    let p2 = s.place("g2", "Ben");
    let p3 = s.place("g3", "Cyd");
    assert_eq!(at(&p1), (0, Some(South)));
    assert_eq!(at(&p2), (1, Some(South)));
    assert_eq!(at(&p3), (0, Some(West)));
}

#[test]
fn adhoc_owner_resume_frees_ghosts_and_takes_south() {
    // Prior session left three DISCONNECTED occupants holding S/W/N (the
    // owner's own stale seat among them). On the owner reopening the table,
    // all ghosts free (→ bot) and the owner lands at South.
    let mut s = session(SessionKind::Adhoc, SeatPolicy::FirstFree, 1);
    {
        let inner = &mut s.rooms[0].state;
        assert!(inner.try_seat(South, "owner-1", "Host")); // owner's old seat
        assert!(inner.try_seat(West, "g2", "Ben"));
        assert!(inner.try_seat(North, "g3", "Cyd"));
        inner.mark_disconnected("owner-1", 0);
        inner.mark_disconnected("g2", 0);
        inner.mark_disconnected("g3", 0);
    }
    let p = s.place("owner-1", "Host");
    assert_eq!(at(&p), (0, Some(South)));
    // Only the owner remains seated; the ghosts are gone (bot-driven).
    assert_eq!(s.rooms[0].state.seats.len(), 1);
    assert!(s.rooms[0].state.seats.get(South).is_some_and(|o| o.sub == "owner-1"));
    // A fresh arrival now seats (previously blocked by ghosts).
    let a = s.place("g9", "New");
    assert_eq!(at(&a), (0, Some(West)));
}

#[test]
fn teacher_set_reconnect_keeps_own_seat_not_forced_south() {
    // The Adhoc owner-resume sweep must NOT touch classroom sessions: a
    // student who disconnected from North reconnects to North, not South,
    // and other disconnected students keep their seats.
    let mut s = session(SessionKind::TeacherSet, SeatPolicy::Manual, 1);
    {
        let inner = &mut s.rooms[0].state;
        assert!(inner.try_seat(North, "owner-1", "Teach"));
        assert!(inner.try_seat(East, "g2", "Ben"));
        inner.mark_disconnected("owner-1", 0);
        inner.mark_disconnected("g2", 0);
    }
    let p = s.place("owner-1", "Teach");
    assert_eq!(at(&p), (0, Some(North)));
    assert!(s.rooms[0].state.seats.get(East).is_some_and(|o| o.sub == "g2"));
}

#[test]
fn teacher_set_is_lockstep_not_self_advancing() {
    let mut s = session(SessionKind::TeacherSet, SeatPolicy::OnePerSeat(vec![South]), 2);
    s.place("g1", "Ann"); // t0 South

    // Even ready + a widened window: teacher_set NEVER self-advances
    // (it's teacher-driven lockstep).
    s.rooms[0].state.ready.insert(South);
    assert_eq!(s.open_boards_to(2), 2);
    assert!(!s.try_advance(0, false), "teacher_set is lockstep");

    // The teacher drives EVERY table together with next_board.
    assert_eq!(s.next_board(), 2, "1-based board number");
    for room in &s.rooms {
        let inner = &room.state;
        assert_eq!(inner.board_index, 1);
        assert_eq!(inner.table.board.number, 2);
        assert!(inner.ready.is_empty());
        assert_eq!(inner.table.seq(), 0, "fresh action log on the new board");
    }

    // And can back everyone up (Shark redo).
    assert_eq!(s.prev_board(), 1);
    assert_eq!(s.rooms[0].state.board_index, 0);
    assert_eq!(s.rooms[1].state.board_index, 0);

    // next past the end clamps (stays on the last board).
    s.next_board();
    assert_eq!(s.next_board(), 2, "clamped at the last board");
}

#[test]
fn load_boards_swaps_set_resets_to_one_and_labels() {
    // Start idle (no boards), then load a labelled set.
    let mut s = idle(SessionKind::TeacherSet, SeatPolicy::Manual, 2);
    assert!(!s.loaded());
    assert_eq!(s.deck_status(), (None, 0, 0));

    assert_eq!(
        s.load_boards(two_boards(), Some("Scenarios - Transfers".into()), None)
            .unwrap(),
        2
    );
    assert!(s.loaded());
    let (label, cur, total) = s.deck_status();
    assert_eq!(label.as_deref(), Some("Scenarios - Transfers"));
    assert_eq!((cur, total), (1, 2));
    for room in &s.rooms {
        assert_eq!(room.state.table.board.number, 1);
    }

    // Move forward, then load a fresh set → pointer resets to board 1.
    s.next_board();
    assert_eq!(s.deck_status().1, 2);
    s.load_boards(two_boards(), Some("Mix".into()), None).unwrap();
    assert_eq!(s.deck_status().1, 1, "load resets the pointer");

    // An empty load is rejected.
    assert!(s.load_boards(vec![], None, None).is_err());
}

#[test]
fn goto_clamps_and_moves_every_table() {
    let mut s = session(SessionKind::TeacherSet, SeatPolicy::FirstFree, 2);
    assert_eq!(s.goto_board(99), 2, "clamped to the last board");
    for room in &s.rooms {
        assert_eq!(room.state.board_index, 1);
    }
    assert_eq!(s.goto_board(1), 1);
    for room in &s.rooms {
        assert_eq!(room.state.board_index, 0);
    }
    assert_eq!(s.goto_board(0), 1, "board 0 clamps to board 1");
}

#[test]
fn idle_session_is_valid_and_reports_unloaded() {
    let mut s = idle(SessionKind::TeacherSet, SeatPolicy::FirstFree, 1);
    assert!(!s.loaded());
    // Placeholder board keeps TableState valid pre-load (seating works).
    assert_eq!(s.rooms[0].state.table.board.deal.total_cards(), 52);
    // No set → nothing advances, even forced.
    assert!(!s.try_advance(0, true));
    // Lobby reports the idle state.
    let lobby = s.lobby_json();
    assert!(!lobby.loaded);
    assert_eq!(lobby.set_label, None);
    assert_eq!(lobby.boards_total, 0);
    assert_eq!(lobby.boards_index, 0);
}

#[test]
fn adhoc_opens_everything_advance_needs_all_ready() {
    let mut s = session(SessionKind::Adhoc, SeatPolicy::FirstFree, 1);
    s.place("g1", "Ann"); // South
    s.place("g2", "Ben"); // West
    assert_eq!(s.open_boards, 2);

    s.rooms[0].state.ready.insert(South);
    assert!(!s.try_advance(0, false), "one of two humans ready is not enough");
    s.rooms[0].state.ready.insert(West);
    assert!(s.try_advance(0, false));
}

#[test]
fn disconnected_humans_do_not_block_advance() {
    let mut s = session(SessionKind::Adhoc, SeatPolicy::FirstFree, 1);
    s.place("g1", "Ann");
    s.place("g2", "Ben");
    s.rooms[0].state.mark_disconnected("g2", 0);
    s.rooms[0].state.ready.insert(South);
    assert!(s.try_advance(0, false));
}

#[test]
fn all_bot_table_only_force_advances() {
    let mut s = session(SessionKind::Adhoc, SeatPolicy::FirstFree, 1);
    assert!(!s.try_advance(0, false), "no humans: no auto-advance");
    assert!(s.try_advance(0, true), "teacher force works");
}

#[test]
fn force_advance_ignores_the_round_gate() {
    let mut s = session(SessionKind::TeacherSet, SeatPolicy::OnePerSeat(vec![South]), 1);
    s.place("g1", "Ann");
    assert!(!s.try_advance(0, false));
    assert!(s.try_advance(0, true));
}

#[test]
fn open_boards_never_narrows() {
    let mut s = session(SessionKind::TeacherSet, SeatPolicy::OnePerSeat(vec![South]), 1);
    assert_eq!(s.open_boards_to(2), 2);
    assert_eq!(s.open_boards_to(1), 2, "cannot close a round");
    assert_eq!(s.open_boards_to(99), 2, "clamped to the board count");
}

#[test]
fn assign_seat_places_by_token_moves_and_swaps() {
    let mut s = session(SessionKind::TeacherSet, SeatPolicy::Manual, 1);
    s.register_conn("tok1", "g1", "Ann");
    s.place("g1", "Ann"); // waiting (manual)

    // Place-by-token: seat the waiter's connection at South.
    let changed = s
        .assign_seat(Some("s1-t1"), Some(South), None, Some("tok1"), false)
        .unwrap();
    assert_eq!(ids(&s, &changed), vec!["s1-t1"]);
    assert_eq!(seated_at(&s, "g1"), Some(("s1-t1".into(), South)));
    assert!(!s.kibitzers.contains_key("g1"), "no longer waiting");

    // Move South → North (target empty).
    s.assign_seat(Some("s1-t1"), Some(North), Some(South), None, false).unwrap();
    assert_eq!(seated_at(&s, "g1"), Some(("s1-t1".into(), North)));

    // A second connection seated at South, then move North→South SWAPS.
    s.register_conn("tok2", "g2", "Ben");
    s.assign_seat(Some("s1-t1"), Some(South), None, Some("tok2"), false).unwrap();
    s.assign_seat(Some("s1-t1"), Some(South), Some(North), None, false).unwrap();
    assert_eq!(seated_at(&s, "g1"), Some(("s1-t1".into(), South)));
    assert_eq!(seated_at(&s, "g2"), Some(("s1-t1".into(), North)));

    // Unknown token rejected; missing from+token+target rejected.
    assert!(s.assign_seat(Some("s1-t1"), Some(East), None, Some("nope"), false).is_err());
    assert!(s.assign_seat(Some("s1-t1"), None, None, None, false).is_err());
}

#[test]
fn roster_drops_disconnected_seatless_connections() {
    // A disconnected connection that still holds a seat stays (greyed
    // zombie seat); a disconnected connection with no seat is dropped so a
    // same-name rejoin doesn't pile up duplicate ghost kibitzers.
    let mut s = session(SessionKind::Adhoc, SeatPolicy::Manual, 1);
    s.register_conn("seated", "g1", "Doc");
    s.register_conn("ghost", "g2", "Doc"); // stale, seatless
    s.register_conn("live", "g3", "Snow"); // connected waiter
    s.assign_seat(Some("s1-t1"), Some(North), None, Some("seated"), false).unwrap();
    // 'seated' loses its socket but keeps seat N; 'ghost' loses its socket
    // with no seat.
    s.mark_conn_disconnected("seated");
    s.mark_conn_disconnected("ghost");

    let roster = s.roster_json();
    let tokens: Vec<&str> = roster.iter().map(|e| e.token.as_str()).collect();
    assert!(tokens.contains(&"seated"), "seated ghost stays (holds N)");
    assert!(tokens.contains(&"live"), "connected waiter stays");
    assert!(!tokens.contains(&"ghost"), "disconnected seatless conn is dropped");
}

#[test]
fn adhoc_uses_fast_takeover_grace_teacher_set_default() {
    let mut adhoc = session(SessionKind::Adhoc, SeatPolicy::FirstFree, 1);
    let g = adhoc.rooms[0].state.takeover;
    assert_eq!(g.on_turn, TakeoverGrace::fast().on_turn);
    assert_eq!(g.off_turn, TakeoverGrace::fast().off_turn);
    // add_room path inherits it too.
    let r2 = adhoc.add_room();
    assert_eq!(adhoc.rooms[r2].state.takeover.on_turn, TakeoverGrace::fast().on_turn);

    let cls = session(SessionKind::TeacherSet, SeatPolicy::Manual, 1);
    let gc = cls.rooms[0].state.takeover;
    assert_eq!(gc.on_turn, TakeoverGrace::standard().on_turn);
    assert_eq!(gc.off_turn, TakeoverGrace::standard().off_turn);
}

#[test]
fn remove_leaves_seat_empty_seat_a_bot_toggles() {
    let mut s = session(SessionKind::Adhoc, SeatPolicy::Manual, 1);
    s.register_conn("tok1", "g1", "Ann");
    s.assign_seat(Some("s1-t1"), Some(South), None, Some("tok1"), false).unwrap();
    // Remove (seat_bot=false) → seat is EMPTY (open, no bot): nobody drives
    // it, so the table pauses on its turn.
    s.assign_seat(Some("s1-t1"), None, Some(South), None, false).unwrap();
    {
        let inner = &s.rooms[0].state;
        assert!(inner.no_bot.contains(South));
        assert!(!inner.seat_bot_controlled(South, true, 0));
        assert!(matches!(inner.seats_json().get(South), SeatLabel::Empty));
    }
    // Seat a bot (seat_bot=true) → seat is a bot again.
    s.assign_seat(Some("s1-t1"), None, Some(South), None, true).unwrap();
    {
        let inner = &s.rooms[0].state;
        assert!(!inner.no_bot.contains(South));
        assert!(inner.seat_bot_controlled(South, true, 0));
        assert!(matches!(inner.seats_json().get(South), SeatLabel::Bot));
    }
}

#[test]
fn kick_removes_person_entirely_seat_becomes_bot() {
    let mut s = session(SessionKind::Adhoc, SeatPolicy::Manual, 1);
    s.register_conn("tok1", "g1", "Ann");
    s.assign_seat(Some("s1-t1"), Some(South), None, Some("tok1"), false).unwrap();
    let kicked = s.kick("tok1").unwrap();
    assert_eq!(ids(&s, &kicked.changed), vec!["s1-t1"]);
    assert_eq!(kicked.sub, "g1");
    // Seat freed → bot (game continues); person gone from conns + kibitzers.
    let inner = &s.rooms[0].state;
    assert!(!inner.seats.contains_key(South));
    assert!(!inner.no_bot.contains(South));
    assert!(matches!(inner.seats_json().get(South), SeatLabel::Bot));
    assert!(s.conn_meta("tok1").is_none());
    assert!(!s.kibitzers.contains_key("g1"));
    assert!(s.kick("tok1").is_err());
}

#[test]
fn set_pass_sides_stores_per_room() {
    let mut s = session(SessionKind::Adhoc, SeatPolicy::FirstFree, 1);
    let mut sides = SideSet::new();
    sides.insert(Side::EW);
    s.set_pass_sides(sides);
    let inner = &s.rooms[0].state;
    assert!(inner.pass_sides.contains(Side::EW));
    assert!(!inner.pass_sides.contains(Side::NS));
    // Side::of maps seats to sides for the bidding gate.
    assert_eq!(Side::of(East), Side::EW);
    assert_eq!(Side::of(North), Side::NS);
    let keys: Vec<&str> = inner.pass_sides_json().iter().map(|side| side.key()).collect();
    assert_eq!(keys, vec!["EW"]);
}

#[test]
fn one_connection_can_hold_multiple_seats() {
    let mut s = session(SessionKind::Adhoc, SeatPolicy::Manual, 1);
    s.register_conn("tok1", "g1", "Ann");
    s.assign_seat(Some("s1-t1"), Some(South), None, Some("tok1"), false).unwrap();
    s.assign_seat(Some("s1-t1"), Some(North), None, Some("tok1"), false).unwrap();
    let mut seats = s.seats_of("g1");
    seats.sort_by_key(|d| d.to_char());
    assert_eq!(seats, vec![North, South]);
    // The roster shows both seats under the single token.
    let roster = s.roster_json();
    let entry = roster.iter().find(|e| e.token == "tok1").unwrap();
    assert_eq!(entry.seats.len(), 2);
    assert_eq!(entry.name, "Ann");
    assert!(entry.connected);
}

#[test]
fn vacate_parks_the_human_as_waiter() {
    let mut s = session(SessionKind::TeacherSet, SeatPolicy::OnePerSeat(vec![South]), 1);
    s.place("g1", "Ann");
    // A ready flag must not survive the vacate.
    s.rooms[0].state.ready.insert(South);
    // Vacate = from set, target None.
    let changed = s.assign_seat(Some("s1-t1"), None, Some(South), None, false).unwrap();
    assert_eq!(ids(&s, &changed), vec!["s1-t1"]);
    assert_eq!(s.find_seated("g1").map(|(_, seat)| seat), None);
    // Vacated → parked in the lobby (never auto-reseated).
    assert_eq!(s.kibitzers.get("g1").map(|k| k.parked), Some(true));
    assert_eq!(s.rooms[0].state.seats.len(), 0);
    assert!(s.rooms[0].state.ready.is_empty());
    // Vacating an empty seat is a no-op.
    assert!(s
        .assign_seat(Some("s1-t1"), None, Some(South), None, false)
        .unwrap()
        .is_empty());
}

#[test]
fn lobby_json_lists_tables_and_kibitzers() {
    let mut s = session(SessionKind::TeacherSet, SeatPolicy::Manual, 2);
    s.place("g1", "Ann"); // kibitzer (manual)
    let lobby = s.lobby_json();
    assert_eq!(lobby.session_id, "s1");
    assert_eq!(lobby.boards_total, 2);
    assert_eq!(lobby.boards_open, 1);
    assert_eq!(lobby.tables.len(), 2);
    assert_eq!(lobby.tables[0].table_id, "s1-t1");
    assert_eq!(lobby.tables[0].snapshot.number, 1);
    assert_eq!(lobby.tables[0].snapshot.phase, Phase::Bidding);
    assert_eq!(lobby.kibitzers.len(), 1);
    assert_eq!(lobby.kibitzers[0].sub, "g1");
    assert_eq!(lobby.kibitzers[0].name, "Ann");
    assert!(!lobby.kibitzers[0].parked);
}

#[test]
fn zero_table_session_auto_creates_on_arrival() {
    let mut s = Session::new(
        "s1".into(),
        SessionKind::Adhoc,
        "o".into(),
        SeatPolicy::FirstFree,
        two_boards(),
        0,
    );
    assert_eq!(s.table_count(), 0);
    let p = s.place("g1", "Ann");
    assert_eq!(at(&p), (0, Some(South)));
    assert_eq!(s.rooms[p.table].id, "s1-t1");
    assert_eq!(s.table_count(), 1);
}

#[test]
fn source_settable_on_zero_tables_new_table_adopts_board() {
    // Idle 0-table session: set the source with no tables, then a student
    // arrives and their auto-created table is on the loaded board.
    let mut s = idle(SessionKind::Adhoc, SeatPolicy::FirstFree, 0);
    s.load_boards(two_boards(), Some("Set".into()), None).unwrap();
    assert_eq!(s.table_count(), 0, "loading a source makes no tables");
    let p = s.place("g1", "Ann");
    assert_eq!(s.table_count(), 1);
    assert_eq!(s.rooms[p.table].state.table.board.number, 1);
}

#[test]
fn wait_to_seat_holds_then_seat_students() {
    let mut s = session(SessionKind::Adhoc, SeatPolicy::FirstFree, 1);
    s.set_wait_to_seat(true);
    // Arrivals wait in the lobby (not seated, not parked).
    let p = s.place("g1", "Ann");
    assert_eq!(p.seat, None);
    assert_eq!(s.kibitzers.get("g1").map(|k| k.parked), Some(false));
    s.place("g2", "Ben");
    assert!(s.find_seated("g1").is_none());
    // Teacher seats the waiting lobby.
    let changed = s.seat_students();
    assert!(!changed.is_empty());
    assert!(s.find_seated("g1").is_some());
    assert!(s.find_seated("g2").is_some());
    assert_eq!(s.kibitzers.len(), 0, "lobby drained");
}

#[test]
fn parked_member_is_not_auto_seated() {
    let mut s = session(SessionKind::Adhoc, SeatPolicy::FirstFree, 1);
    s.place("g1", "Ann"); // South
    s.assign_seat(Some("s1-t1"), None, Some(South), None, false).unwrap(); // vacate → parked
    assert_eq!(s.kibitzers.get("g1").map(|k| k.parked), Some(true));
    // seat_students must NOT re-seat a parked member.
    let changed = s.seat_students();
    assert!(changed.is_empty());
    assert!(s.find_seated("g1").is_none());
    assert!(s.kibitzers.contains_key("g1"), "still parked in the lobby");
}

#[test]
fn add_tables_grows_the_session() {
    let mut s = session(SessionKind::Adhoc, SeatPolicy::FirstFree, 1);
    assert_eq!(s.add_tables(3), 4);
    assert_eq!(
        ids(&s, &[0, 1, 2, 3]),
        vec!["s1-t1", "s1-t2", "s1-t3", "s1-t4"]
    );
}

#[test]
fn concurrent_arrivals_fill_deterministically() {
    // 4 students connecting at once (spawned tabs) must fill ONE table
    // S/W/N/E, not race into scattered tables.
    let mut s = session(SessionKind::Adhoc, SeatPolicy::FirstFree, 0);
    let p0 = s.place("g0", "A");
    let p1 = s.place("g1", "B");
    let p2 = s.place("g2", "C");
    let p3 = s.place("g3", "D");
    assert_eq!(s.table_count(), 1, "one table, not a scatter");
    let mut seats: Vec<char> = [&p0, &p1, &p2, &p3]
        .iter()
        .map(|p| p.seat.unwrap().to_char())
        .collect();
    seats.sort_unstable();
    assert_eq!(seats, vec!['E', 'N', 'S', 'W'], "all four distinct seats");
}

#[test]
fn set_seat_policy_changes_auto_seat_live() {
    let mut s = session(SessionKind::Adhoc, SeatPolicy::FirstFree, 1);
    // Switch to one-per-table (South) live.
    s.set_seat_policy(SeatPolicy::from_key("one_per_south").unwrap());
    assert_eq!(s.seat_policy().key(), "one_per_south");
    let p1 = s.place("g1", "A");
    let p2 = s.place("g2", "B");
    assert_eq!(at(&p1), (0, Some(South)));
    // Second student → a new table (one per table).
    assert_eq!(at(&p2), (1, Some(South)));
    assert!(SeatPolicy::from_key("nope").is_none());
}

#[test]
fn pause_and_resume_bots() {
    let mut s = session(SessionKind::Adhoc, SeatPolicy::FirstFree, 1);
    assert!(!s.bots_paused());
    s.set_bots_paused(true);
    assert!(s.bots_paused());
    s.set_bots_paused(false);
    assert!(!s.bots_paused());
}

#[test]
fn disconnected_guest_reclaims_seat_by_name() {
    let mut s = session(SessionKind::Adhoc, SeatPolicy::FirstFree, 1);
    let p = s.place("g1", "Bob"); // South
    assert_eq!(p.seat, Some(South));
    // Bob's tab drops → seat goes disconnected.
    s.rooms[0].state.mark_disconnected("g1", 0);
    // Bob reopens with a fresh guest sub + same name → reclaims his seat,
    // no duplicate table/seat.
    let p2 = s.place("g2-new", "Bob");
    assert_eq!(at(&p2), (0, Some(South)));
    assert_eq!(s.table_count(), 1, "no duplicate table");
    assert_eq!(seated_at(&s, "g2-new"), Some(("s1-t1".into(), South)));
    assert_eq!(seated_at(&s, "g1"), None, "old sub replaced");
}

#[test]
fn account_id_is_none_for_guests_and_the_sub_otherwise() {
    // Guests cannot be friended, so they must not surface an account id.
    assert_eq!(
        account_id_of("guest-2f1c9e10-0000-4000-8000-000000000001"),
        None
    );
    // A registered subject IS the classroom users.id.
    assert_eq!(
        account_id_of("2f1c9e10-0000-4000-8000-000000000002"),
        Some("2f1c9e10-0000-4000-8000-000000000002")
    );
}

#[test]
fn roster_exposes_account_id_for_members_and_null_for_guests() {
    let mut s = session(SessionKind::Adhoc, SeatPolicy::FirstFree, 1);
    s.register_conn("tok-member", "u-member", "Ann Alpha");
    s.register_conn("tok-guest", "guest-abc", "Bob S.");

    let roster = s.roster_json();
    let find = |name: &str| {
        roster
            .iter()
            .find(|e| e.name == name)
            .unwrap_or_else(|| panic!("{name} missing from roster"))
    };

    assert_eq!(find("Ann Alpha").account_id.as_deref(), Some("u-member"));
    assert!(
        find("Bob S.").account_id.is_none(),
        "a guest must not expose an account id"
    );
}

#[test]
fn set_bot_mode_applies_and_surfaces() {
    let mut s = session(SessionKind::Adhoc, SeatPolicy::FirstFree, 1);
    s.set_bot_mode(BotMode::Random);
    assert_eq!(s.bot_mode().as_str(), "random");
    assert_eq!(s.rooms[0].bot_mode().as_str(), "random", "existing table updated");
    // New tables inherit it.
    let r = s.add_room();
    assert_eq!(s.rooms[r].bot_mode().as_str(), "random");
}

#[test]
fn load_boards_carries_board_mode_and_new_tables_inherit() {
    let mut s = session(SessionKind::Adhoc, SeatPolicy::FirstFree, 1);
    assert_eq!(
        s.rooms[0].state.board_mode,
        BoardMode::BidAndPlay,
        "default is bid-and-play"
    );
    // Loading a set WITH a mode (the client's "play the hand" choice)
    // applies it to every existing table…
    s.load_boards(two_boards(), Some("Set".into()), Some(BoardMode::BidOnly)).unwrap();
    assert_eq!(s.board_mode(), BoardMode::BidOnly);
    assert_eq!(s.rooms[0].state.board_mode, BoardMode::BidOnly, "existing table updated");
    // …and new tables inherit it.
    let r = s.add_room();
    assert_eq!(s.rooms[r].state.board_mode, BoardMode::BidOnly);
    // A later load WITHOUT a mode leaves the chosen mode untouched.
    s.load_boards(two_boards(), Some("Again".into()), None).unwrap();
    assert_eq!(s.board_mode(), BoardMode::BidOnly, "absent mode keeps the current mode");
}

#[test]
fn unknown_kinds_policies_and_tables_are_named_in_the_error() {
    assert_eq!(SessionKind::parse("adhoc"), Ok(SessionKind::Adhoc));
    assert_eq!(SessionKind::parse("club").unwrap_err(), "unknown session kind 'club'");
    let mut s = session(SessionKind::Adhoc, SeatPolicy::Manual, 0);
    assert_eq!(
        s.assign_seat(Some("s1-t9"), None, Some(South), None, false).unwrap_err(),
        "unknown table s1-t9"
    );
    assert_eq!(
        s.assign_seat(None, None, Some(South), None, false).unwrap_err(),
        "no tables in session"
    );
    s.add_tables(1);
    assert_eq!(
        s.assign_seat(None, Some(South), Some(East), None, false).unwrap_err(),
        "seat East is empty"
    );
}

#[test]
fn a_board_change_is_told_and_starts_the_bots() {
    let mut s = session(SessionKind::Adhoc, SeatPolicy::FirstFree, 1);
    s.take_outbox();
    assert!(s.try_advance(0, true));
    assert_eq!(
        s.take_outbox(),
        vec![
            Notice::Event {
                table: 0,
                event: Event::BoardAdvanced { board_no: 2, board_index: 1, forced: true },
            },
            Notice::Resync { table: 0 },
            Notice::Lobby,
            Notice::Kick { table: 0 },
        ]
    );
    assert!(s.take_outbox().is_empty());
}

#[test]
fn bulk_seating_gives_each_a_seat_and_names_each_table_once() {
    let mut s = session(SessionKind::TeacherSet, SeatPolicy::FirstFree, 1);
    s.set_wait_to_seat(true);
    let names = ["g1", "g2", "g3", "g4", "g5"];
    for sub in names {
        s.place(sub, sub);
    }
    assert_eq!(s.seat_students(), vec![0, 1]);
    let mut places = Vec::new();
    for sub in names {
        let place = s.find_seated(sub).unwrap();
        assert!(!places.contains(&place));
        places.push(place);
    }
    assert_eq!(s.kibitzers.len(), 0);
}

#[test]
fn a_requested_seat_is_taken_under_manual_policy() {
    let mut s = session(SessionKind::TeacherSet, SeatPolicy::Manual, 1);
    assert_eq!(at(&s.place_seat("g1", "Ann", Some(East))), (0, Some(East)));
    // Taken: the next one waits.
    assert_eq!(at(&s.place_seat("g2", "Ben", Some(East))), (0, None));
}

#[test]
fn the_registry_keeps_a_live_session() {
    let mut r = Registry::new();
    let (i, created) = r.insert_session(session(SessionKind::Adhoc, SeatPolicy::FirstFree, 1));
    assert_eq!((i, created), (0, true));
    r.sessions.entries[i].1.place("g1", "Ann");
    let (j, again) = r.insert_session(session(SessionKind::Adhoc, SeatPolicy::FirstFree, 5));
    assert_eq!((j, again), (0, false));
    assert_eq!(r.sessions.entries[0].1.table_count(), 1);
    assert!(r.sessions.entries[0].1.find_seated("g1").is_some());
    assert_eq!(r.get_session("s1"), Some(0));
    assert_eq!(r.get_session("s2"), None);
    assert!(r.remove_session("s1").is_some());
    assert!(r.remove_session("s1").is_none());
    r.demo_room();
    assert_eq!(r.demo.as_ref().unwrap().id, "demo");
}
