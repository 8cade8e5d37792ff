//! Endpoints: configuration, admin, dashboard, dealer scripts and frames.

use bridge_table_service::actions::board_complete_msg;
use bridge_table_service::auth::{mint_ticket, Ticket};
use bridge_table_service::boards::ParsedBoard;
use bridge_table_service::cards::{hand, Call, Deal, Direction, Strain, Vulnerability};
use bridge_table_service::config::{Config, ConfigError, Environment};
use bridge_table_service::dealer;
use bridge_table_service::deals::{
    board_from_pbn, deal_cards, draw_all, full_deck, random_board, standard_vulnerability,
};
use bridge_table_service::events::{DealSource, Event, Notice};
use bridge_table_service::registry::Registry;
use bridge_table_service::rooms::{
    demo_board, demo_room, BoardMode, BotMode, Room, SeatLabel, TakeoverGrace,
};
use bridge_table_service::routes::admin::{
    create_session, default_kind, default_table_count, delete_session, CreateSessionRequest,
};
use bridge_table_service::routes::dashboard::{dashboard, DashboardQuery};
use bridge_table_service::routes::health::healthz;
use bridge_table_service::routes::ws::connection::Rebind;
use bridge_table_service::routes::ws::demo::{
    deal_with, handle_demo_msg, join_demo, leave_demo, script_to_send, MAX_PBN_BYTES,
};
use bridge_table_service::routes::ws::{
    check_hello, parse_card, route, session_snapshot, snapshot_msg, teacher_welcome_msg,
    unknown_session, welcome_msg, ErrorFrame, FirstFrame, Frame, Route,
};
use bridge_table_service::sessions::{parse_boards, SeatPolicy, Session, SessionKind};
use bridge_table_service::table::Action;
use bridge_table_service::text::whitespace;

use Direction::{East, North, South, West};

fn env() -> Environment {
    Environment {
        port: None,
        log_level: None,
        log_format: None,
        database_path: None,
        dashboard_secret: Some("d".into()),
        ticket_secret: Some("t".into()),
        ben_url: None,
        bba_url: None,
        bot_timeout_ms: None,
    }
}

#[test]
fn configuration_has_its_defaults() {
    let c = Config::from_env(env()).unwrap();
    assert_eq!(c.port, 8004);
    assert_eq!(c.log_level, "info");
    assert_eq!(c.log_format, "json");
    assert_eq!(c.database_path, "./data/bridge-table-service.db");
    assert_eq!((c.dashboard_secret.as_str(), c.ticket_secret.as_str()), ("d", "t"));
    assert_eq!(c.ben_url, "https://ben.bridge-craftwork.com");
    assert_eq!(c.bba_url, "https://bba.harmonicsystems.com");
    assert_eq!(c.bot_timeout_ms, 20_000);
    let c = Config::from_env(Environment { port: Some("+80".into()), ..env() }).unwrap();
    assert_eq!(c.port, 80);
}

#[test]
fn configuration_says_what_is_wrong() {
    let wrong = |e: Environment| Config::from_env(e).err();
    for port in ["65536", "eighty", "", "-1"] {
        let e = Environment { port: Some(port.into()), dashboard_secret: None, ..env() };
        assert_eq!(wrong(e), Some(ConfigError::Port));
    }
    let e = Environment { dashboard_secret: None, ticket_secret: None, ..env() };
    assert_eq!(wrong(e), Some(ConfigError::DashboardSecret));
    let e = Environment { ticket_secret: None, ..env() };
    assert_eq!(wrong(e), Some(ConfigError::TicketSecret));
    let e = Environment { bot_timeout_ms: Some("soon".into()), ..env() };
    assert_eq!(wrong(e), Some(ConfigError::BotTimeout));
    assert_eq!(ConfigError::Port.message(), "PORT");
    assert_eq!(ConfigError::DashboardSecret.message(), "DASHBOARD_SECRET is required");
    assert_eq!(ConfigError::TicketSecret.message(), "TICKET_SECRET is required");
}

#[test]
fn the_dashboard_needs_its_key() {
    let html = "<b>{{VERSION}}</b> up {{UPTIME_SECONDS}}s {{VERSION}}";
    let q = |key: Option<&str>| DashboardQuery { key: key.map(|s| s.into()) };
    assert_eq!(dashboard(&q(None), "secret", html, "1.0", 5), None);
    assert_eq!(dashboard(&q(Some("guess")), "secret", html, "1.0", 5), None);
    assert_eq!(
        dashboard(&q(Some("secret")), "secret", html, "1.0", 3600).unwrap(),
        "<b>1.0</b> up 3600s 1.0"
    );
    let h = healthz("1.0", 7);
    assert_eq!((h.status, h.version.as_str(), h.uptime_seconds), ("ok", "1.0", 7));
}

fn parsed() -> Vec<ParsedBoard> {
    vec![ParsedBoard {
        number: Some(1),
        dealer: Some(North),
        vulnerable: Vulnerability::NorthSouth,
        deal: Deal {
            north: hand("K843", "T542", "J6", "863"),
            east: hand("AQJ7", "K", "Q75", "AT942"),
            south: hand("962", "AJ7", "KT82", "J75"),
            west: hand("T5", "Q9863", "A943", "KQ"),
        },
        play: None,
    }]
}

fn create(id: &str) -> CreateSessionRequest {
    CreateSessionRequest {
        id: id.into(),
        kind: "teacher_set".into(),
        boards_pbn: "[Board \"1\"]".into(),
        table_count: 2,
        seat_policy: None,
        owner_sub: "owner".into(),
    }
}

#[test]
fn sessions_are_created_once() {
    let mut r = Registry::new();
    let read = Ok(parsed());
    let reply = create_session(&mut r, Some("k"), "k", &create("s1"), &read).unwrap();
    assert_eq!((reply.status, reply.created, reply.boards), (201, true, 1));
    assert_eq!(reply.tables, vec!["s1-t1", "s1-t2"]);
    let again = CreateSessionRequest { table_count: 7, ..create("s1") };
    let reply = create_session(&mut r, Some("k"), "k", &again, &read).unwrap();
    assert_eq!((reply.status, reply.created), (200, false));
    assert_eq!(reply.tables.len(), 2);
    // No boards: the session starts idle.
    let bare = CreateSessionRequest { boards_pbn: " \n\u{2003}".into(), ..create("s2") };
    let reply = create_session(&mut r, Some("k"), "k", &bare, &Err("x".into())).unwrap();
    assert_eq!((reply.created, reply.boards), (true, 0));
    assert_eq!((default_kind().as_str(), default_table_count()), ("adhoc", 1));
}

#[test]
fn bad_requests_are_refused_in_order() {
    let mut r = Registry::new();
    let mut refused = |header: Option<&str>, req: CreateSessionRequest, read| {
        let e = create_session(&mut r, header, "k", &req, &read).unwrap_err();
        (e.status, e.error)
    };
    let say = |status: u16, s: &str| (status, s.to_string());
    assert_eq!(refused(None, create(""), Ok(vec![])), say(401, "bad service secret"));
    assert_eq!(refused(Some("x"), create("s1"), Ok(vec![])), say(401, "bad service secret"));
    assert_eq!(
        refused(Some("k"), create("  "), Ok(vec![])),
        say(400, "id and owner_sub are required")
    );
    assert_eq!(
        refused(Some("k"), CreateSessionRequest { owner_sub: "".into(), ..create("s1") }, Ok(vec![])),
        say(400, "id and owner_sub are required")
    );
    assert_eq!(refused(Some("k"), create("demo"), Ok(vec![])), say(400, "'demo' is reserved"));
    let many = CreateSessionRequest { table_count: 21, kind: "club".into(), ..create("s1") };
    assert_eq!(refused(Some("k"), many, Ok(vec![])), say(400, "table_count must be 0..=20"));
    let kind = CreateSessionRequest { kind: "club".into(), ..create("s1") };
    assert_eq!(
        refused(Some("k"), kind, Ok(vec![])),
        say(400, "unknown session kind 'club'")
    );
    let policy = bridge_table_service::seating::PolicyRequest {
        mode: Some("auto".into()),
        pattern: Some("nope".into()),
        seats: None,
        sides: None,
    };
    let bad = CreateSessionRequest { seat_policy: Some(policy), ..create("s1") };
    assert_eq!(
        refused(Some("k"), bad, Ok(vec![])),
        say(400, "seat_policy: unknown seat pattern 'nope'")
    );
    assert_eq!(refused(Some("k"), create("s1"), Ok(vec![])), say(400, "no boards in PBN"));
    assert_eq!(
        refused(Some("k"), create("s1"), Err("line 1".into())),
        say(400, "bad PBN: line 1")
    );
}

#[test]
fn an_unknown_seat_is_shown_as_it_was_written() {
    let mut r = Registry::new();
    let policy = bridge_table_service::seating::PolicyRequest {
        mode: None,
        pattern: Some("one_per_seat".into()),
        seats: Some(vec![bridge_table_service::seating::PolicyItem {
            text: Some("Q\"".into()),
            written: "\"Q\\\"\"".into(),
        }]),
        sides: None,
    };
    let bad = CreateSessionRequest { seat_policy: Some(policy), ..create("s1") };
    let e = create_session(&mut r, Some("k"), "k", &bad, &Ok(vec![])).unwrap_err();
    assert!(e.error.starts_with("seat_policy: "), "{}", e.error);
    assert!(e.error.contains('Q'), "{}", e.error);
    // An unknown mode is shown quoted.
    let policy = bridge_table_service::seating::PolicyRequest {
        mode: Some("psychic".into()),
        pattern: None,
        seats: None,
        sides: None,
    };
    let bad = CreateSessionRequest { seat_policy: Some(policy), ..create("s1") };
    let e = create_session(&mut r, Some("k"), "k", &bad, &Ok(vec![])).unwrap_err();
    assert!(e.error.contains("psychic"), "{}", e.error);
}

#[test]
fn closing_a_session_tells_its_tables() {
    let mut r = Registry::new();
    create_session(&mut r, Some("k"), "k", &create("s1"), &Ok(parsed())).unwrap();
    assert_eq!(delete_session(&mut r, None, "k", "s1").unwrap_err().status, 401);
    let gone = delete_session(&mut r, Some("k"), "k", "s1").unwrap().unwrap();
    assert_eq!(
        gone.outbox,
        vec![
            Notice::Event { table: 0, event: Event::SessionClosed },
            Notice::Event { table: 1, event: Event::SessionClosed },
            Notice::Lobby,
        ]
    );
    assert!(delete_session(&mut r, Some("k"), "k", "s1").unwrap().is_none());
    // The id is free again.
    assert!(create_session(&mut r, Some("k"), "k", &create("s1"), &Ok(parsed())).unwrap().created);
}

#[test]
fn white_space_is_unicodes() {
    for n in 0..=0x10ffff {
        if let Some(c) = char::from_u32(n) {
            assert_eq!(whitespace(c), c.is_whitespace(), "{n:x}");
        }
    }
}

#[test]
fn a_script_is_prepared_and_its_tags_are_kept() {
    let client = dealer::init("https://dealer.example/", Some("tok".into()));
    assert!(dealer::available(&client));
    assert_eq!(client.as_ref().unwrap().url, "https://dealer.example");
    assert!(!dealer::available(&dealer::init("https://dealer.example", None)));
    assert_eq!(
        dealer::prepare("x = 1\naction printoneline, average x").unwrap(),
        "produce 1\nx = 1\naction printpbn, average x"
    );
    assert_eq!(
        dealer::prepare(&"x".repeat(32_769)),
        Err(dealer::DealerError::TooLarge)
    );
    assert!(dealer::prepare(&"x".repeat(32_768)).is_ok());
    let output = "[Board \"1\"]\r\n  [Deal \"N:...\"]\n\u{2003}[Note]\nFrequency [x]:\n";
    assert_eq!(
        dealer::extract_board(output).unwrap(),
        "[Board \"1\"]\n  [Deal \"N:...\"]\n\u{2003}[Note]"
    );
    assert_eq!(
        dealer::extract_board("Frequency x:\n").unwrap_err(),
        dealer::DealerError::NoDeal
    );
}

#[test]
fn snapshot_includes_state_and_seats() {
    let mut room = Room::new("t1".into(), demo_board(), TakeoverGrace::standard());
    room.state.seat_or_rebind("u1", "Alice");
    let msg = snapshot_msg("t1", &room.state, Some(Direction::South), None);
    assert_eq!(msg.table_id, "t1");
    assert_eq!(msg.your_seat, Some(South));
    // Seats travel with every snapshot so late joiners see who is
    // human vs bot without waiting for a seat_update event.
    match msg.seats.get(South) {
        SeatLabel::Human { name, .. } => assert_eq!(name, "Alice"),
        other => panic!("{other:?}"),
    }
    assert!(matches!(msg.seats.get(West), SeatLabel::Empty));
}

#[test]
fn board_complete_msg_flattens_the_result() {
    let mut room = Room::new("t1".into(), demo_board(), TakeoverGrace::standard());
    assert!(board_complete_msg(&room.state.table).is_none(), "in progress");
    // Pass the demo board out (dealer N).
    for seat in [North, East, South, West] {
        room.state.table.apply(Action::Call { seat, call: Call::Pass }).unwrap();
    }
    let event = board_complete_msg(&room.state.table).unwrap();
    assert_eq!(event.kind(), "board_complete");
    match event {
        Event::BoardComplete { seq, result } => {
            assert_eq!(seq, 4);
            assert_eq!(result.board_no, 1);
            assert!(result.passed_out);
            assert!(result.contract.is_none());
        }
        other => panic!("{other:?}"),
    }
}

#[test]
fn cards_are_two_characters() {
    assert_eq!(parse_card("SA").unwrap().to_code(), "SA");
    assert_eq!(parse_card("ST").unwrap().to_code(), "ST");
    for s in ["", "S", "SAA", "AS", "S1"] {
        assert!(parse_card(s).is_none(), "{s}");
    }
}

fn code(e: Option<ErrorFrame>) -> String {
    e.map(|e| e.code).unwrap_or_default()
}

fn ticket(sub: &str, role: &str, session_id: &str) -> Ticket {
    Ticket {
        sub: sub.into(),
        name: sub.into(),
        session_id: session_id.into(),
        role: role.into(),
        exp: i64::MAX,
    }
}

#[test]
fn the_first_frame_must_be_a_hello_with_a_ticket() {
    let read = |bytes: &Vec<u8>| {
        if bytes.as_slice() == b"ann" {
            Some(ticket("ann", "student", "s1"))
        } else {
            None
        }
    };
    let said = |first: FirstFrame| {
        let e = check_hello(&first, "secret", read).unwrap_err();
        (e.code, e.msg)
    };
    let pair = |c: &str, m: &str| (c.to_string(), m.to_string());
    let expected = pair("expected_hello", "first frame must be hello");
    assert_eq!(said(FirstFrame::NotText), expected);
    assert_eq!(said(FirstFrame::BadJson), pair("bad_json", "unparseable hello"));
    assert_eq!(said(FirstFrame::Json(Frame::of("bid"))), expected);
    assert_eq!(
        said(FirstFrame::Json(Frame::of("hello"))),
        pair("no_ticket", "hello.ticket missing")
    );
    let hello = |token: String| {
        let mut f = Frame::of("hello");
        f.ticket = Some(token);
        f.bot = Some("rules".into());
        f.seat = Some("North".into());
        FirstFrame::Json(f)
    };
    assert_eq!(
        said(hello("nonsense".into())),
        pair("bad_ticket", "malformed ticket")
    );
    assert_eq!(
        said(hello(mint_ticket(b"ann", "other"))),
        pair("bad_ticket", "bad ticket signature")
    );
    let ok = check_hello(&hello(mint_ticket(b"ann", "secret")), "secret", read).unwrap();
    assert_eq!(ok.ticket.sub, "ann");
    assert_eq!(ok.bot_override, Some(BotMode::Rules));
    assert_eq!(ok.seat, Some(North));
}

#[test]
fn tickets_lead_to_their_sessions() {
    let mut r = Registry::new();
    create_session(&mut r, Some("k"), "k", &create("s1"), &Ok(parsed())).unwrap();
    assert_eq!(route(&r, &ticket("g1", "student", "s1")), Route::Player(0));
    assert_eq!(route(&r, &ticket("owner", "student", "s1")), Route::Teacher(0));
    assert_eq!(route(&r, &ticket("g1", "teacher", "s1")), Route::Teacher(0));
    assert_eq!(route(&r, &ticket("g1", "guest", "demo")), Route::Demo);
    assert_eq!(route(&r, &ticket("g1", "guest", "s9")), Route::Unknown);
    assert_eq!(unknown_session().code, "unknown_session");
}

fn session(kind: SessionKind) -> Session {
    let mut boards = parsed();
    boards.push(parsed().pop().unwrap());
    boards[1].number = Some(2);
    Session::new(
        "s1".into(),
        kind,
        "owner".into(),
        SeatPolicy::FirstFree,
        parse_boards(&boards).unwrap(),
        1,
    )
}

fn bid_frame(call: Call, text: &str) -> Frame {
    let mut f = Frame::of("bid");
    f.call = Some(call);
    f.call_text = text.into();
    f
}

#[test]
fn a_player_joins_bids_and_leaves() {
    let mut s = session(SessionKind::Adhoc);
    let p = s.join("tok1", "g1", "Ann", None, Some(BotMode::Random));
    assert_eq!((p.table, p.seat), (0, Some(South)));
    assert_eq!(s.rooms[0].bot_mode(), BotMode::Random);
    assert_eq!(
        s.take_outbox(),
        vec![
            Notice::Event { table: 0, event: Event::SeatUpdate { seq: 0 } },
            Notice::Everyone { event: Event::RosterUpdate },
            Notice::Lobby,
            Notice::Keepalive { table: 0 },
            Notice::Kick { table: 0 },
        ]
    );
    let w = welcome_msg(&s, 0, &ticket("g1", "student", "s1"), p.seat);
    assert_eq!((w.table_id.as_str(), w.board, w.board_total, w.loaded), ("s1-t1", 1, 2, true));
    assert_eq!(w.bot_mode, BotMode::Random);
    // The roster rides in the welcome and in the snapshot.
    assert_eq!((w.roster.len(), w.roster[0].token.as_str()), (1, "tok1"));
    let snap = session_snapshot(&s, 0, p.seat);
    assert_eq!((snap.table_id.as_str(), snap.your_seat), ("s1-t1", Some(South)));
    assert_eq!(snap.roster.unwrap()[0].seats, vec![South]);

    // South bids out of turn, then in turn.
    let one_spade = Call::Bid { level: 1, strain: Strain::Spades };
    let f = bid_frame(one_spade, "1S");
    let e = s.handle_client_msg(0, p.seat, &f, 0).unwrap();
    assert_eq!((e.code.as_str(), e.msg.as_str()), ("rejected", "not South's turn to call"));
    for seat in [North, East] {
        assert!(s.handle_client_msg(0, Some(seat), &bid_frame(Call::Pass, "Pass"), 0).is_none());
    }
    s.take_outbox();
    assert!(s.handle_client_msg(0, p.seat, &f, 0).is_none());
    assert_eq!(
        s.take_outbox(),
        vec![
            Notice::Event {
                table: 0,
                event: Event::BidMade {
                    seq: 3,
                    seat: South,
                    call: one_spade,
                    via: None,
                    next_to_act: Some(West),
                },
            },
            Notice::Lobby,
            Notice::Kick { table: 0 },
        ]
    );
    // Undo takes it back.
    let mut undo = Frame::of("undo");
    undo.to_seq = Some(2);
    assert!(s.handle_client_msg(0, None, &undo, 0).is_none());
    assert_eq!(s.rooms[0].state.table.seq(), 2);

    s.leave(0, "tok1", "g1", 77);
    let o = s.rooms[0].state.seats.get(South).unwrap();
    assert_eq!((o.connected, o.disconnected_at), (false, Some(77)));
    assert_eq!(s.find_seated("g1"), Some((0, South)));
    // Back in the same seat.
    let p = s.join("tok2", "g1", "Ann", None, None);
    assert_eq!((p.table, p.seat), (0, Some(South)));
    assert!(s.rooms[0].state.seats.get(South).unwrap().connected);
}

#[test]
fn frames_are_refused_with_their_codes() {
    let mut s = session(SessionKind::Adhoc);
    let mut ask = |seat: Option<Direction>, f: &Frame| code(s.handle_client_msg(0, seat, f, 0));
    assert_eq!(ask(None, &Frame::of("pong")), "");
    assert_eq!(ask(None, &Frame::of("bid")), "not_seated");
    assert_eq!(ask(Some(North), &Frame::of("bid")), "bad_call");
    assert_eq!(ask(None, &Frame::of("play")), "not_seated");
    assert_eq!(ask(Some(North), &Frame::of("play")), "bad_card");
    assert_eq!(ask(Some(North), &Frame::of("undo")), "bad_undo");
    assert_eq!(ask(None, &Frame::of("ready_next_board")), "not_seated");
    assert_eq!(ask(None, &Frame::of("deal")), "not_seated");
    assert_eq!(ask(Some(North), &Frame::of("deal")), "session_table");
    assert_eq!(ask(Some(North), &Frame::of("dance")), "unknown");
    let mut forward = Frame::of("undo");
    forward.to_seq = Some(1);
    assert_eq!(ask(None, &forward), "rejected");
    let mut play = Frame::of("play");
    play.card = Some("SK".into());
    // The auction is on.
    assert_eq!(ask(Some(North), &play), "rejected");
    assert_eq!(ask(Some(South), &play), "rejected");
    s.rooms[0].state.board_mode = BoardMode::BidOnly;
    assert_eq!(code(s.handle_client_msg(0, Some(North), &play, 0)), "bid_only");
    s.rooms[0].state.board_mode = BoardMode::PlayOnly;
    let pass = bid_frame(Call::Pass, "Pass");
    assert_eq!(code(s.handle_client_msg(0, Some(North), &pass, 0)), "play_only");
}

#[test]
fn declarer_plays_dummys_cards() {
    let mut s = session(SessionKind::Adhoc);
    for seat in [North, East, South, West] {
        assert!(s.rooms[0].state.try_seat(seat, seat.name(), seat.name()));
    }
    let nt = |level| Call::Bid { level, strain: Strain::NoTrump };
    for (seat, call) in [
        (North, Call::Pass),
        (East, nt(1)),
        (South, Call::Pass),
        (West, nt(3)),
        (North, Call::Pass),
        (East, Call::Pass),
        (South, Call::Pass),
    ] {
        assert!(s.handle_client_msg(0, Some(seat), &bid_frame(call, ""), 0).is_none());
    }
    let play = |card: &str| {
        let mut f = Frame::of("play");
        f.card = Some(card.into());
        f
    };
    s.take_outbox();
    assert!(s.handle_client_msg(0, Some(South), &play("S2"), 0).is_none());
    // The opening lead turns dummy up.
    assert!(s.take_outbox().contains(&Notice::Resync { table: 0 }));
    // West is dummy: not West but East plays its cards.
    let e = s.handle_client_msg(0, Some(North), &play("ST"), 0).unwrap();
    assert_eq!((e.code.as_str(), e.msg.as_str()), ("rejected", "not your turn"));
    assert!(s.handle_client_msg(0, Some(East), &play("ST"), 0).is_none());
    assert!(s.handle_client_msg(0, Some(North), &play("SK"), 0).is_none());
    s.take_outbox();
    assert!(s.handle_client_msg(0, Some(East), &play("SA"), 0).is_none());
    match s.take_outbox()[0] {
        Notice::Event { event: Event::CardPlayed { trick_winner, tricks_ew, .. }, .. } => {
            assert_eq!((trick_winner, tricks_ew), (Some(East), 1));
        }
        other => panic!("{other:?}"),
    }
}

#[test]
fn everybody_ready_moves_a_friends_table_on() {
    let mut s = session(SessionKind::Adhoc);
    s.place("g1", "Ann");
    s.place("g2", "Ben");
    let ready = Frame::of("ready_next_board");
    assert!(s.handle_client_msg(0, Some(South), &ready, 0).is_none());
    assert_eq!(s.rooms[0].state.board_index, 0);
    s.take_outbox();
    assert!(s.handle_client_msg(0, Some(West), &ready, 0).is_none());
    assert_eq!(s.rooms[0].state.board_index, 1);
    assert!(s.rooms[0].state.ready.is_empty());
    assert!(matches!(
        s.take_outbox()[0],
        Notice::Event { event: Event::ReadyUpdate { .. }, .. }
    ));
}

#[test]
fn teachers_drive_the_session() {
    let mut s = session(SessionKind::TeacherSet);
    s.join_teacher("host", "owner", "Teacher", Some(BotMode::Rules));
    assert_eq!(s.rooms[0].bot_mode(), BotMode::Rules);
    let mut ask = |f: &Frame| code(s.handle_teacher_msg(None, f));
    assert_eq!(ask(&Frame::of("pong")), "");
    assert_eq!(ask(&Frame::of("open_boards")), "bad_count");
    assert_eq!(ask(&Frame::of("load_boards")), "bad_pbn");
    assert_eq!(ask(&Frame::of("goto_board")), "bad_index");
    assert_eq!(ask(&Frame::of("force_advance")), "bad_table");
    assert_eq!(ask(&Frame::of("set_seat_policy")), "bad_policy");
    assert_eq!(ask(&Frame::of("set_bot_mode")), "bad_mode");
    assert_eq!(ask(&Frame::of("assign_seat")), "bad_table");
    assert_eq!(ask(&Frame::of("undo")), "no_table");
    assert_eq!(ask(&Frame::of("dance")), "unknown");
    let mut boot = Frame::of("boot");
    boot.table = Some("s1-t1".into());
    assert_eq!(ask(&boot), "bad_seat");
    assert_eq!(ask(&Frame::of("next_board")), "");
    assert_eq!(s.deck_status().1, 2);
    assert!(s.handle_teacher_msg(None, &Frame::of("prev_board")).is_none());
    let mut goto = Frame::of("goto_board");
    goto.index = Some(2);
    assert!(s.handle_teacher_msg(None, &goto).is_none());
    assert_eq!(s.deck_status().1, 2);
    let mut force = Frame::of("force_advance");
    force.table = Some("s1-t1".into());
    let e = s.handle_teacher_msg(None, &force).unwrap();
    assert_eq!((e.code.as_str(), e.msg.as_str()), ("rejected", "no more boards"));
    let mut more = Frame::of("add_tables");
    more.count = Some(99);
    assert!(s.handle_teacher_msg(None, &more).is_none());
    assert_eq!(s.table_count(), 21);
    assert!(s.handle_teacher_msg(None, &Frame::of("pause_bots")).is_none());
    assert!(s.bots_paused());
    let mut go = Frame::of("pause_bots");
    go.on = Some(false);
    assert!(s.handle_teacher_msg(None, &go).is_none());
    assert!(!s.bots_paused());
    let mut wait = Frame::of("wait_to_seat");
    wait.on = Some(true);
    assert!(s.handle_teacher_msg(None, &wait).is_none());
    assert!(s.wait_to_seat);
    let mut kibitz = Frame::of("kibitz");
    assert_eq!(s.kibitz_table(&kibitz).unwrap_err().msg, "kibitz.table missing");
    kibitz.table = Some("s1-t3".into());
    assert_eq!(s.kibitz_table(&kibitz), Ok(2));
    kibitz.table = Some("s9".into());
    assert_eq!(s.kibitz_table(&kibitz).unwrap_err().msg, "unknown table");
}

#[test]
fn a_teacher_loads_a_set_and_opens_boards() {
    let mut s = Session::new(
        "s1".into(),
        SessionKind::Adhoc,
        "owner".into(),
        SeatPolicy::FirstFree,
        vec![],
        1,
    );
    assert_eq!(code(s.handle_teacher_msg(None, &Frame::of("next_board"))), "no_set");
    let mut load = Frame::of("load_boards");
    load.boards_pbn = Some("…".into());
    load.boards = Err("no tags".into());
    let e = s.handle_teacher_msg(None, &load).unwrap();
    assert_eq!((e.code.as_str(), e.msg.as_str()), ("bad_pbn", "bad PBN: no tags"));
    load.boards = Ok(parsed());
    load.label = Some("Mix".into());
    load.mode = Some("bid_only".into());
    assert!(s.handle_teacher_msg(None, &load).is_none());
    assert_eq!(s.deck_status(), (Some("Mix".into()), 1, 1));
    assert_eq!(s.board_mode(), BoardMode::BidOnly);
    s.take_outbox();
    let mut open = Frame::of("open_boards");
    open.count = Some(9);
    assert!(s.handle_teacher_msg(None, &open).is_none());
    assert_eq!(
        s.take_outbox(),
        vec![
            Notice::Event { table: 0, event: Event::BoardsOpen { open: 1, total: 1 } },
            Notice::Lobby,
        ]
    );
}

#[test]
fn booted_players_watch_and_assigned_ones_sit() {
    let mut s = session(SessionKind::TeacherSet);
    let p = s.join("tok1", "g1", "Ann", None, None);
    let (mut table, mut seat) = (p.table, p.seat);
    assert_eq!(s.resolve_binding("g1", &mut table, &mut seat), Rebind::Unchanged);
    s.take_outbox();
    let mut boot = Frame::of("boot");
    boot.table = Some("s1-t1".into());
    boot.seat = Some("S".into());
    assert!(s.handle_teacher_msg(None, &boot).is_none());
    assert_eq!(
        s.take_outbox(),
        vec![
            Notice::Event { table: 0, event: Event::SeatUpdate { seq: 0 } },
            Notice::Kick { table: 0 },
            Notice::Everyone { event: Event::RosterUpdate },
            Notice::Recheck,
            Notice::Lobby,
        ]
    );
    assert!(matches!(s.rooms[0].state.seats_json().get(South), SeatLabel::Bot));
    assert_eq!(s.resolve_binding("g1", &mut table, &mut seat), Rebind::Changed);
    assert_eq!((table, seat), (0, None));
    let mut assign = Frame::of("assign_seat");
    assign.table = Some("s1-t1".into());
    assign.seat = Some("North".into());
    assign.sub = Some("g1".into());
    assert!(s.handle_teacher_msg(None, &assign).is_none());
    assert_eq!(s.resolve_binding("g1", &mut table, &mut seat), Rebind::Changed);
    assert_eq!((table, seat), (0, Some(North)));
    assert!(!s.kibitzers.contains_key("g1"));
    assign.sub = Some("g9".into());
    let e = s.handle_teacher_msg(None, &assign).unwrap();
    assert_eq!(
        (e.code.as_str(), e.msg.as_str()),
        ("rejected", "unknown connection token g9")
    );
}

fn assign(table: &str, seat: &str, sub: &str) -> Frame {
    let mut f = Frame::of("assign_seat");
    f.table = Some(table.into());
    f.seat = Some(seat.into());
    f.sub = Some(sub.into());
    f
}

#[test]
fn assigned_players_move_within_and_between_tables() {
    let mut s = session(SessionKind::TeacherSet);
    s.add_tables(1);
    for (token, sub) in [("tok1", "g1"), ("tok2", "g2"), ("tok3", "g3")] {
        s.join(token, sub, sub, None, None);
    }
    assert_eq!(s.find_seated("g1"), Some((0, South)));
    assert_eq!(s.find_seated("g2"), Some((1, South)));
    assert_eq!(s.find_seated("g3"), Some((0, West)));
    // Within the table: the two exchange their seats.
    s.take_outbox();
    assert!(s.handle_teacher_msg(None, &assign("s1-t1", "W", "g1")).is_none());
    assert_eq!(s.find_seated("g1"), Some((0, West)));
    assert_eq!(s.find_seated("g3"), Some((0, South)));
    assert_eq!(s.seats_of("g1"), vec![West]);
    // Already there: nothing changes.
    s.take_outbox();
    assert!(s.handle_teacher_msg(None, &assign("s1-t1", "W", "g1")).is_none());
    assert_eq!(
        s.take_outbox(),
        vec![
            Notice::Everyone { event: Event::RosterUpdate },
            Notice::Recheck,
            Notice::Lobby,
        ]
    );
    // Between tables: the old seat goes to a bot, whoever sat in the new one
    // waits, and both tables are told.
    let (mut table, mut seat) = (0, Some(West));
    assert!(s.handle_teacher_msg(None, &assign("s1-t2", "S", "g1")).is_none());
    assert_eq!(
        s.take_outbox(),
        vec![
            Notice::Event { table: 0, event: Event::SeatUpdate { seq: 0 } },
            Notice::Kick { table: 0 },
            Notice::Event { table: 1, event: Event::SeatUpdate { seq: 0 } },
            Notice::Kick { table: 1 },
            Notice::Everyone { event: Event::RosterUpdate },
            Notice::Recheck,
            Notice::Lobby,
        ]
    );
    assert_eq!(s.resolve_binding("g1", &mut table, &mut seat), Rebind::Changed);
    assert_eq!((table, seat), (1, Some(South)));
    assert_eq!(s.seats_of("g1"), vec![South]);
    assert!(matches!(s.rooms[0].state.seats_json().get(West), SeatLabel::Bot));
    assert_eq!(s.find_seated("g2"), None);
    assert!(s.kibitzers.contains_key("g2"));
    assert!(!s.kibitzers.contains_key("g1"));
    // Somebody who has dropped moves as they are.
    s.leave(0, "tok3", "g3", 9);
    assert!(s.handle_teacher_msg(None, &assign("s1-t2", "N", "g3")).is_none());
    let o = s.rooms[1].state.seats.get(North).unwrap();
    assert_eq!((o.sub.as_str(), o.connected, o.disconnected_at), ("g3", false, Some(9)));
    let e = s.handle_teacher_msg(None, &assign("s1-t9", "N", "g3")).unwrap();
    assert_eq!((e.code.as_str(), e.msg.as_str()), ("rejected", "unknown table s1-t9"));
}

#[test]
fn an_invited_player_gets_the_seat_they_ask_for() {
    let mut s = session(SessionKind::TeacherSet);
    s.set_seat_policy(SeatPolicy::Manual);
    let p = s.join("tok1", "g1", "Ann", Some(North), None);
    assert_eq!((p.table, p.seat), (0, Some(North)));
    // Taken: the next one waits.
    let p = s.join("tok2", "g2", "Ben", Some(North), None);
    assert_eq!((p.table, p.seat), (0, None));
    assert!(s.kibitzers.contains_key("g2"));
    // Any other policy seats by itself.
    s.set_seat_policy(SeatPolicy::FirstFree);
    let p = s.join("tok3", "g3", "Cas", Some(East), None);
    assert_eq!((p.table, p.seat), (0, Some(South)));
}

#[test]
fn the_host_is_on_the_roster_and_sits_by_their_own_token() {
    let mut s = session(SessionKind::TeacherSet);
    s.join_teacher("host", "owner", "Teacher", None);
    assert_eq!(
        s.take_outbox(),
        vec![
            Notice::Keepalive { table: 0 },
            Notice::Everyone { event: Event::RosterUpdate },
            Notice::Lobby,
        ]
    );
    assert_eq!(Event::RosterUpdate.kind(), "roster_update");
    let w = teacher_welcome_msg(&s, &ticket("owner", "teacher", "s1"));
    assert_eq!((w.session_id.as_str(), w.name.as_str()), ("s1", "owner"));
    assert_eq!(w.roster.len(), 1);
    assert_eq!((w.roster[0].token.as_str(), w.roster[0].seats.len()), ("host", 0));
    assert_eq!(s.find_seated("owner"), None);
    assert_eq!(s.assign_seat(None, Some(East), None, Some("host"), false), Ok(vec![0]));
    assert_eq!(s.roster_json()[0].seats, vec![East]);
    // Their seat stays theirs while they are away, and they come back to it.
    s.take_outbox();
    s.leave_teacher("host", "owner", 5);
    assert!(!s.roster_json()[0].connected);
    assert_eq!(s.rooms[0].state.seats.get(East).unwrap().disconnected_at, Some(5));
    assert_eq!(
        s.take_outbox(),
        vec![
            Notice::Event { table: 0, event: Event::SeatUpdate { seq: 0 } },
            Notice::Everyone { event: Event::RosterUpdate },
            Notice::Lobby,
        ]
    );
    s.join_teacher("host2", "owner", "Teacher", None);
    assert!(s.rooms[0].state.seats.get(East).unwrap().connected);
    assert_eq!(s.roster_json().len(), 1);
    // Without a seat they are simply gone.
    s.assign_seat(None, None, Some(East), None, true).unwrap();
    s.leave_teacher("host2", "owner", 6);
    assert!(s.roster_json().is_empty());
}

#[test]
fn the_waiting_lobby_is_seated() {
    let mut s = session(SessionKind::TeacherSet);
    s.set_wait_to_seat(true);
    s.join("tok1", "g1", "Ann", None, None);
    s.take_outbox();
    assert!(s.handle_teacher_msg(None, &Frame::of("seat_students")).is_none());
    assert_eq!(s.find_seated("g1"), Some((0, South)));
    assert_eq!(
        s.take_outbox(),
        vec![
            Notice::Event { table: 0, event: Event::SeatUpdate { seq: 0 } },
            Notice::Kick { table: 0 },
            Notice::Everyone { event: Event::RosterUpdate },
            Notice::Recheck,
            Notice::Lobby,
        ]
    );
}

fn deal_frame(source: &str) -> Frame {
    let mut f = Frame::of("deal");
    f.source = Some(source.into());
    f
}

#[test]
fn the_demo_table_deals_again() {
    let mut room = demo_room();
    let mut out = Vec::new();
    let seat = join_demo(&mut room, "u1", "Ann", Some(BotMode::Rules), &mut out);
    assert_eq!(seat, Some(South));
    assert_eq!(out.len(), 3);
    let pass = bid_frame(Call::Pass, "Pass");
    assert!(handle_demo_msg(&mut room, Some(North), &pass, 0, &mut out).is_none());
    out.clear();
    let mut replay = deal_frame("replay");
    replay.mode = Some("bid_only".into());
    assert!(handle_demo_msg(&mut room, seat, &replay, 0, &mut out).is_none());
    assert_eq!((room.state.table.seq(), room.state.table.board.number), (0, 1));
    assert_eq!(room.state.board_mode, BoardMode::BidOnly);
    assert_eq!(
        out,
        vec![
            Notice::Event {
                table: 0,
                event: Event::BoardDealt { board_no: 1, source: DealSource::Replay },
            },
            Notice::Resync { table: 0 },
            Notice::Kick { table: 0 },
        ]
    );
    assert!(handle_demo_msg(&mut room, seat, &deal_frame("random"), 0, &mut out).is_none());
    assert_eq!(room.state.table.board.number, 2);
    assert_eq!(room.state.table.board.dealer, East);
    leave_demo(&mut room, "u1", 9, &mut out);
    assert!(!room.state.seats.get(South).unwrap().connected);
}

#[test]
fn the_last_board_number_still_plays_and_replays() {
    let mut room = demo_room();
    room.state.table.board.number = u32::MAX;
    let mut out = Vec::new();
    let pass = bid_frame(Call::Pass, "Pass");
    assert!(handle_demo_msg(&mut room, Some(North), &pass, 0, &mut out).is_none());
    assert_eq!(room.state.table.seq(), 1);
    assert!(handle_demo_msg(&mut room, Some(South), &deal_frame("replay"), 0, &mut out).is_none());
    assert_eq!((room.state.table.seq(), room.state.table.board.number), (0, u32::MAX));
    let e = handle_demo_msg(&mut room, None, &deal_frame("random"), 0, &mut out).unwrap();
    assert_eq!(e.code, "not_seated");
}

#[test]
fn demo_frames_are_refused_with_their_codes() {
    let mut room = demo_room();
    let mut out = Vec::new();
    let mut ask = |seat: Option<Direction>, f: &Frame| {
        code(handle_demo_msg(&mut room, seat, f, 0, &mut out))
    };
    assert_eq!(ask(None, &Frame::of("ready_next_board")), "not_seated");
    assert_eq!(ask(Some(South), &Frame::of("ready_next_board")), "no_session");
    assert_eq!(ask(None, &deal_frame("random")), "not_seated");
    assert_eq!(ask(Some(South), &Frame::of("deal")), "bad_source");
    assert_eq!(ask(Some(South), &deal_frame("stacked")), "bad_source");
    assert_eq!(ask(Some(South), &deal_frame("pbn")), "bad_pbn");
    assert_eq!(ask(Some(South), &Frame::of("dance")), "unknown");
    let mut long = deal_frame("pbn");
    long.pbn = Some("x".repeat(MAX_PBN_BYTES + 1));
    long.boards = Ok(parsed());
    let e = handle_demo_msg(&mut room, Some(South), &long, 0, &mut out).unwrap();
    assert_eq!((e.code.as_str(), e.msg.as_str()), ("bad_pbn", "PBN too large"));
    assert!(out.is_empty());
}

#[test]
fn scripts_go_to_the_dealer_first() {
    let none = None;
    let some = dealer::init("https://dealer.example", Some("tok".into()));
    let said = |r: Option<Result<String, ErrorFrame>>| r.unwrap().unwrap_err().code;
    let mut f = deal_frame("script");
    assert!(script_to_send(&some, None, &f).is_none());
    assert!(script_to_send(&some, Some(South), &deal_frame("pbn")).is_none());
    assert_eq!(said(script_to_send(&some, Some(South), &f)), "bad_script");
    f.script = Some("action printoneline".into());
    assert_eq!(said(script_to_send(&none, Some(South), &f)), "dealer_unavailable");
    assert_eq!(
        script_to_send(&some, Some(South), &f).unwrap().unwrap(),
        "produce 1\naction printpbn"
    );
    f.script = Some("x".repeat(40_000));
    assert_eq!(said(script_to_send(&some, Some(South), &f)), "dealer_failed");
    // The answer comes back as boards.
    let mut room = demo_room();
    let mut out = Vec::new();
    f.boards = Ok(parsed());
    f.rotate = Some(5);
    assert!(deal_with(&mut room, Some(South), &f, demo_board(), &mut out).is_none());
    assert_eq!(room.state.table.board.number, 2);
    assert_eq!(room.state.table.board.dealer, East);
}

#[test]
fn boards_turn_clockwise() {
    let b = board_from_pbn(&parsed(), 1, 7).unwrap();
    assert_eq!((b.number, b.dealer), (7, East));
    assert_eq!(b.vulnerable, Vulnerability::EastWest);
    assert_eq!(b.deal.east, demo_board().deal.north);
    assert_eq!(b.deal.north, demo_board().deal.west);
    let b = board_from_pbn(&parsed(), 2, 7).unwrap();
    assert_eq!(b.vulnerable, Vulnerability::NorthSouth);
    assert_eq!(b.deal.south, demo_board().deal.north);
    assert_eq!(board_from_pbn(&vec![], 0, 1).unwrap_err(), "no boards in PBN");
    let mut short = parsed();
    short[0].deal.north.pop();
    assert_eq!(
        board_from_pbn(&short, 0, 1).unwrap_err(),
        "board 1 has 51 cards (need 52)"
    );
}

#[test]
fn numbers_draw_cards_from_what_is_left() {
    let codes = |draws: &[u64]| -> Vec<String> {
        draw_all(hand("AKQJ", "", "", ""), &draws.to_vec())
            .iter()
            .map(|c| c.to_code())
            .collect()
    };
    assert_eq!(codes(&[6, 1, 5, 0]), ["SQ", "SK", "SJ", "SA"]);
    assert_eq!(codes(&[0, 0, 0, 0]), ["SA", "SK", "SQ", "SJ"]);
    // No more numbers, or no more cards.
    assert_eq!(codes(&[3]), ["SJ"]);
    assert_eq!(codes(&[3, 2, 1, 0, 9]), ["SJ", "SQ", "SK", "SA"]);
    // Whatever the numbers are, they are the same cards.
    let draws: Vec<u64> = (0..52).map(|i: u64| i * 2654435761).collect();
    let mut all: Vec<String> = draw_all(full_deck(), &draws).iter().map(|c| c.to_code()).collect();
    let mut deck: Vec<String> = full_deck().iter().map(|c| c.to_code()).collect();
    assert_ne!(all, deck);
    all.sort();
    deck.sort();
    assert_eq!(all, deck);
}

#[test]
fn random_boards_are_full_deals() {
    let b = random_board(6);
    assert_eq!((b.number, b.dealer), (6, East));
    assert_eq!(b.vulnerable, Vulnerability::EastWest);
    let mut all: Vec<String> = Vec::new();
    for seat in [North, East, South, West] {
        assert_eq!(b.deal.hand(seat).len(), 13);
        all.extend(b.deal.hand(seat).iter().map(|c| c.to_code()));
    }
    all.sort();
    all.dedup();
    assert_eq!(all.len(), 52);
    // Two deals are not the same.
    assert_ne!(b.deal.north, random_board(6).deal.north);
    let unshuffled = deal_cards(1, &full_deck());
    assert_eq!(unshuffled.deal.north, hand("AKQJT98765432", "", "", ""));
    let vul: Vec<Vulnerability> = [1, 2, 3, 4, 5, 8, 13, 16, 17]
        .iter()
        .map(|n| standard_vulnerability(*n))
        .collect();
    assert_eq!(
        vul,
        vec![
            Vulnerability::Neither,
            Vulnerability::NorthSouth,
            Vulnerability::EastWest,
            Vulnerability::Both,
            Vulnerability::NorthSouth,
            Vulnerability::Neither,
            Vulnerability::Both,
            Vulnerability::EastWest,
            Vulnerability::Neither,
        ]
    );
}
