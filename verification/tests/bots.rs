//! Bots: encodings, cached auctions, and the driver's turn.

use bridge_table_service::bots::bba::{
    build_body, call_to_bba, continuation, BbaClient, BbaReply,
};
use bridge_table_service::bots::ben::{
    calls_to_ctx, card_from_code, played_to_string, player_to_seat, read_reply, vul_to_ben,
    BenClient, BenReply,
};
use bridge_table_service::bots::{
    ask_for_card, ben_answer, ben_query, bot_turn_pending, choose_call, choose_call_cached,
    choose_card, finish, init, pick, plan, ready_call, rules_card, slow_think, still_on_table,
    think_ms, Ask, BidPending, Pending, PlayPending, TurnEnd,
};
use bridge_table_service::cards::{
    hand, hand_to_pbn, Call, Card, Deal, Direction, Rank, Strain, Suit, Vulnerability,
};
use bridge_table_service::engine::auction::ContractOutcome;
use bridge_table_service::events::{Event, Notice, Via};
use bridge_table_service::rooms::{
    demo_board, demo_room, BoardMode, BotMode, Room, TAKEOVER_AFTER_ON_TURN,
};
use bridge_table_service::seating::Side;
use bridge_table_service::sessions::{SeatPolicy, Session, SessionKind};
use bridge_table_service::table::{Action, ActionError, BoardSetup};

use Direction::{East, North, South, West};

fn call(s: &str) -> Call {
    match s {
        "Pass" => Call::Pass,
        "X" => Call::Double,
        "XX" => Call::Redouble,
        _ => {
            let level = s[..1].parse().unwrap();
            let strain = match &s[1..] {
                "C" => Strain::Clubs,
                "D" => Strain::Diamonds,
                "H" => Strain::Hearts,
                "S" => Strain::Spades,
                "NT" => Strain::NoTrump,
                other => panic!("no strain {other}"),
            };
            Call::Bid { level, strain }
        }
    }
}

fn calls(s: &str) -> Vec<Call> {
    s.split_whitespace().map(call).collect()
}

const PBN: &str = "N:K843.T542.J6.863 AQJ7.K.Q75.AT942 962.AJ7.KT82.J75 T5.Q9863.A943.KQ";

fn board(vul: Vulnerability) -> BoardSetup {
    BoardSetup {
        number: 1,
        dealer: Direction::East,
        vulnerable: vul,
        deal: Deal {
            north: hand("K843", "T542", "J6", "863"),
            east: hand("AQJ7", "K", "Q75", "AT942"),
            south: hand("962", "AJ7", "KT82", "J75"),
            west: hand("T5", "Q9863", "A943", "KQ"),
        },
        play_line: None,
    }
}

#[test]
fn bba_tokens_use_nt_not_n() {
    assert_eq!(call_to_bba(&call("Pass")), "Pass");
    assert_eq!(call_to_bba(&call("X")), "X");
    assert_eq!(call_to_bba(&call("XX")), "XX");
    assert_eq!(call_to_bba(&call("1NT")), "1NT");
    assert_eq!(call_to_bba(&call("2H")), "2H");
    assert_eq!(call_to_bba(&call("7C")), "7C");
}

#[test]
fn body_shape_matches_frontend_call() {
    let b = build_body(&board(Vulnerability::Both), &[]);
    assert!(b.pbn.starts_with("N:"));
    assert_eq!(b.pbn, PBN);
    assert_eq!(b.dealer, 'E');
    // PBN "All" must go out as "Both".
    assert_eq!(b.vulnerability, "Both");
    assert_eq!(b.scoring, "MP");
    assert_eq!(b.ns, "21GF-DEFAULT");
    assert_eq!(b.ew, "21GF-DEFAULT");
    // No auctionPrefix key when there is no prefix (frontend omits it).
    assert!(b.auction_prefix.is_none());

    let b = build_body(&board(Vulnerability::Neither), &calls("1NT Pass"));
    assert_eq!(b.vulnerability, "None");
    assert_eq!(b.auction_prefix, Some(vec!["1NT".to_string(), "Pass".to_string()]));
}

#[test]
fn continuation_serves_only_while_prefix_matches() {
    let cache = Some(calls("1C Pass 1H Pass 3NT Pass Pass Pass"));

    // From the top: first predicted call.
    assert_eq!(continuation(&cache, &[]), Some(call("1C")));
    // Mid-auction, on the predicted line.
    assert_eq!(continuation(&cache, &calls("1C Pass")), Some(call("1H")));
    // Divergence: actual calls left the predicted line.
    assert_eq!(continuation(&cache, &calls("1C 1S")), None);
    // Undo case: a rewind that stays on the line still serves.
    assert_eq!(continuation(&cache, &calls("1C")), Some(call("Pass")));
    // Exhausted: actual auction as long as (or longer than) prediction.
    assert_eq!(
        continuation(&cache, &calls("1C Pass 1H Pass 3NT Pass Pass Pass")),
        None
    );
    // No cache yet.
    assert_eq!(continuation(&None, &[]), None);
}

fn bba_reply(auction: Option<Vec<Option<Call>>>) -> BbaReply {
    BbaReply { status_ok: true, status: "200 OK".into(), error: None, success: true, auction }
}

#[test]
fn a_prediction_must_continue_the_auction() {
    let bba = BbaClient::new("https://bba.example/");
    assert_eq!(bba.base, "https://bba.example");
    let line = calls("1C Pass 1H Pass");
    let reply = bba_reply(Some(line.iter().map(|c| Some(*c)).collect()));
    assert_eq!(bba.generate(&reply, &calls("1C")).unwrap(), line);
    assert!(bba.generate(&reply, &calls("1D")).is_err());
    assert!(bba.generate(&bba_reply(None), &[]).is_err());
    assert!(bba.generate(&bba_reply(Some(vec![None])), &[]).is_err());
    let mut failed = bba_reply(Some(vec![Some(Call::Pass)]));
    failed.success = false;
    assert!(bba.generate(&failed, &[]).is_err());
    failed.success = true;
    failed.status_ok = false;
    assert!(bba.generate(&failed, &[]).is_err());
}

#[test]
fn ctx_encoding_matches_ben_client_js() {
    // Pass → "--", X → "Db", XX → "Rd", "1NT" → "1N", suit bids as-is; all
    // concatenated.
    let calls = [call("Pass"), call("1NT"), call("X"), call("XX"), call("2H")];
    assert_eq!(calls_to_ctx(&calls), "--1NDbRd2H");
    assert_eq!(calls_to_ctx(&[]), "");
    assert_eq!(
        calls_to_ctx(&[call("1C"), call("Pass"), call("3NT")]),
        "1C--3N"
    );
    assert_eq!(
        calls_to_ctx(&[Call::Bid { level: 7, strain: Strain::NoTrump }, Call::Double]),
        "7NDb"
    );
}

#[test]
fn played_string_is_chronological_suit_rank() {
    // DJ DK D3 D2 → "DJDKD3D2".
    let played = [
        (North, card_from_code("DJ").unwrap()),
        (East, card_from_code("DK").unwrap()),
        (South, card_from_code("D3").unwrap()),
        (West, card_from_code("D2").unwrap()),
    ];
    assert_eq!(played_to_string(&played), "DJDKD3D2");
    // Ten encodes as T.
    assert_eq!(
        played_to_string(&[(North, card_from_code("ST").unwrap())]),
        "ST"
    );
    assert_eq!(played_to_string(&[]), "");
}

#[test]
fn vul_encoding_is_seat_relative() {
    // None → "", All/Both → "@v@V" regardless of seat, otherwise "@v" if our
    // side is vul else "@V".
    assert_eq!(vul_to_ben(Vulnerability::Neither, North), "");
    assert_eq!(vul_to_ben(Vulnerability::Both, East), "@v@V");
    assert_eq!(vul_to_ben(Vulnerability::NorthSouth, North), "@v");
    assert_eq!(vul_to_ben(Vulnerability::NorthSouth, South), "@v");
    assert_eq!(vul_to_ben(Vulnerability::NorthSouth, East), "@V");
    assert_eq!(vul_to_ben(Vulnerability::EastWest, West), "@v");
    assert_eq!(vul_to_ben(Vulnerability::EastWest, North), "@V");
}

#[test]
fn player_maps_relative_to_declarer() {
    // Declarer South: 0=LHO→W, 1=dummy→N, 2=RHO→E, 3=declarer→S.
    assert_eq!(player_to_seat(0, South), West);
    assert_eq!(player_to_seat(1, South), North);
    assert_eq!(player_to_seat(2, South), East);
    assert_eq!(player_to_seat(3, South), South);
    assert_eq!(player_to_seat(0, North), East);
    assert_eq!(player_to_seat(3, West), West);
}

#[test]
fn hand_pbn_round_trips_dot_format() {
    // The dot format BEN expects (suits S.H.D.C, ranks descending).
    let s = "AK97543.K.T3.AK7";
    let suits: Vec<&str> = s.split('.').collect();
    assert_eq!(hand_to_pbn(&hand(suits[0], suits[1], suits[2], suits[3])), s);
    // Order in the hand does not matter, and a void is empty.
    assert_eq!(hand_to_pbn(&hand("35", "", "T2A", "")), "53..AT2.");
}

#[test]
fn card_codes_parse() {
    assert_eq!(
        card_from_code("S7"),
        Some(Card::new(Suit::Spades, Rank::Seven))
    );
    assert_eq!(
        card_from_code("HT"),
        Some(Card::new(Suit::Hearts, Rank::Ten))
    );
    assert_eq!(card_from_code(""), None);
    assert_eq!(card_from_code("S"), None);
    assert_eq!(card_from_code("S77"), None);
    assert_eq!(card_from_code("X7"), None);
}

#[test]
fn ben_is_asked_with_the_decision_makers_cards() {
    let clients = init("http://ben:8085/", "https://bba.example", 20_000);
    assert_eq!(clients.ben.base, "http://ben:8085");
    assert_eq!(clients.ben.timeout_ms, 20_000);
    let ben = BenClient::new("http://ben", 1);
    let q = ben.lead("AK.KQ.T9.8765432", South, North, "@v", "--1N");
    assert_eq!(q[0], ("hand", "AK.KQ.T9.8765432".to_string()));
    assert_eq!(q[1], ("seat", "S".to_string()));
    assert_eq!(q[2], ("dealer", "N".to_string()));
    let reply = BenReply {
        status_ok: true,
        status: "200 OK".into(),
        error: None,
        card: Some("S7".into()),
        card_written: "\"S7\"".into(),
        player: Some(3),
    };
    assert_eq!(
        read_reply("/play", &reply).unwrap(),
        (Card::new(Suit::Spades, Rank::Seven), Some(3))
    );
    let bad = BenReply { card: Some("S77".into()), card_written: "\"S77\"".into(), ..reply };
    assert_eq!(
        read_reply("/play", &bad).unwrap_err(),
        "BEN /play returned unparseable card: \"S77\""
    );
    let down = BenReply { status_ok: false, status: "502 Bad Gateway".into(), ..bad };
    assert_eq!(read_reply("/lead", &down).unwrap_err(), "BEN /lead: 502 Bad Gateway");
}

#[test]
fn disconnected_seat_becomes_bot_driven_after_grace() {
    let mut room = Room::new(
        "t".into(),
        demo_board(),
        bridge_table_service::rooms::TakeoverGrace::standard(),
    );
    for sub in ["u1", "u2", "u3", "u4"] {
        room.state.seat_or_rebind(sub, sub); // S, W, N, E
    }
    let now = 1_000_000;
    // Demo board's dealer is North (= "u3"), so North is on turn.
    assert!(!bot_turn_pending(&room.state, false, now), "all humans connected");

    room.state.mark_disconnected("u3", now);
    assert!(
        !bot_turn_pending(&room.state, false, now),
        "freshly disconnected: still within grace"
    );

    // Past the on-turn grace period.
    let later = now + TAKEOVER_AFTER_ON_TURN + 1_000;
    assert!(bot_turn_pending(&room.state, false, later), "grace expired: bot takes over");
    assert!(!bot_turn_pending(&room.state, true, later), "bots on hold");

    // Reconnect: same sub rebinds the same seat, takeover ends.
    assert_eq!(room.state.seat_or_rebind("u3", "u3"), Some(North));
    assert!(!bot_turn_pending(&room.state, false, later), "human reclaimed the seat");
}

fn bid_due(room: &Room) -> BidPending {
    match plan(&room.state, false, 0) {
        Some(Pending::Bid(b)) => b,
        other => panic!("{other:?}"),
    }
}

fn play_due(room: &Room) -> PlayPending {
    match plan(&room.state, false, 0) {
        Some(Pending::Play(p)) => p,
        other => panic!("{other:?}"),
    }
}

fn bid(room: &mut Room, s: &str) {
    let seat = room.state.table.fold().next_to_act.unwrap();
    room.state.table.apply(Action::Call { seat, call: call(s) }).unwrap();
}

/// East declares 3NT; South is to lead.
fn in_3nt() -> Room {
    let mut room = demo_room();
    for s in ["Pass", "1NT", "Pass", "3NT", "Pass", "Pass", "Pass"] {
        bid(&mut room, s);
    }
    room
}

#[test]
fn a_bot_bids_in_turn_and_the_table_is_told() {
    let mut room = demo_room();
    let b = bid_due(&room);
    assert_eq!((b.seat, b.seq, b.pass), (North, 0, false));
    let mut out = Vec::new();
    let action = Action::Call { seat: North, call: Call::Pass };
    let end = finish(&mut room, 0, b.seq, action, Via::Fallback, false, true, &mut out);
    assert_eq!(end, TurnEnd::Done { trick_pause: false });
    assert!(end.acted());
    assert_eq!(
        out,
        vec![
            Notice::Event {
                table: 0,
                event: Event::BidMade {
                    seq: 1,
                    seat: North,
                    call: Call::Pass,
                    via: Some(Via::Fallback),
                    next_to_act: Some(East),
                },
            },
            Notice::Lobby,
        ]
    );
    // The same suggestion again is stale.
    let end = finish(&mut room, 0, b.seq, action, Via::Fallback, false, true, &mut out);
    assert_eq!(end, TurnEnd::Stale);
    assert_eq!(out.len(), 2);
    // An action out of turn is refused.
    let end = finish(&mut room, 0, 1, action, Via::Fallback, false, true, &mut out);
    assert_eq!(end, TurnEnd::Rejected(ActionError::NotTurnToCall(North)));
    assert!(!end.acted());
}

#[test]
fn a_side_that_passes_needs_no_backend() {
    let mut room = demo_room();
    room.state.pass_sides.insert(Side::NS);
    let b = bid_due(&room);
    assert!(b.pass);
    assert_eq!(ready_call(&b, BotMode::Real), Some((Call::Pass, Via::Pass)));
    bid(&mut room, "Pass");
    let b = bid_due(&room);
    assert!(!b.pass);
    assert_eq!(ready_call(&b, BotMode::Real), None);
    assert_eq!(ready_call(&b, BotMode::Rules), None);
    assert_eq!(ready_call(&b, BotMode::Random), Some((Call::Pass, Via::Random)));
}

#[test]
fn a_bid_belongs_to_the_board_it_was_planned_on() {
    let mut room = demo_room();
    let b = bid_due(&room);
    assert!(still_on_table(&room.state, &b));
    room.state.table.board.number = 2;
    assert!(!still_on_table(&room.state, &b));
    room.state.table.board.number = 1;
    room.state.table.board.deal.west.pop();
    assert!(!still_on_table(&room.state, &b));
}

#[test]
fn a_cached_prediction_is_served_or_dropped() {
    let mut cache = Some(calls("1C Pass 1H Pass Pass Pass"));
    assert_eq!(
        choose_call_cached(&mut cache, North, &calls("1C Pass")),
        Some((call("1H"), Via::Bba))
    );
    assert!(cache.is_some());
    // 1C after 1C is no legal call: the prediction can only go wrong again.
    let mut cache = Some(calls("1C 1C"));
    assert_eq!(choose_call_cached(&mut cache, North, &calls("1C")), None);
    assert!(cache.is_none());
    assert_eq!(
        choose_call(&mut cache, North, &calls("1C"), Some(calls("1C 1D"))),
        (call("1D"), Via::Bba)
    );
    assert_eq!(cache, Some(calls("1C 1D")));
    assert_eq!(
        choose_call(&mut cache, North, &calls("1C"), None),
        (Call::Pass, Via::Fallback)
    );
    assert_eq!(cache, Some(calls("1C 1D")));
    assert_eq!(
        choose_call(&mut cache, North, &calls("1C"), Some(calls("1D"))),
        (Call::Pass, Via::Fallback)
    );
}

#[test]
fn a_play_is_planned_from_the_decision_makers_hand() {
    let mut room = in_3nt();
    let p = play_due(&room);
    assert_eq!((p.seat, p.decision_maker, p.declarer), (South, South, East));
    assert!(p.opening_lead);
    assert_eq!(p.legal.len(), 13);
    assert_eq!(p.ctx, "--1N--3N------");
    assert_eq!(p.dummy_cards, demo_board().deal.west);
    assert_eq!(p.contract.to_pbn(), "3N");
    let lead = Card::new(Suit::Spades, Rank::Two);
    let mut out = Vec::new();
    let action = Action::Play { seat: South, card: lead };
    finish(&mut room, 0, p.seq, action, Via::Rules, true, false, &mut out);
    assert!(out.contains(&Notice::Resync { table: 0 }));
    // Dummy's card is the declarer's decision.
    let p = play_due(&room);
    assert_eq!((p.seat, p.decision_maker), (West, East));
    assert_eq!(p.hand_pbn, "AQJ7.K.Q75.AT942");
    assert_eq!(p.dummy_pbn, "T5.Q9863.A943.KQ");
    assert_eq!(p.played, "S2");
    assert_eq!(p.legal, hand("T5", "", "", ""));
}

#[test]
fn ben_is_asked_for_the_lead_and_for_the_play() {
    let ben = BenClient::new("http://ben", 1);
    let mut room = in_3nt();
    let p = play_due(&room);
    let (path, q) = ben_query(&ben, &p);
    assert_eq!((path, q.len()), ("/lead", 5));
    assert_eq!(q[0].1, "962.AJ7.KT82.J75");
    let reply = |player| BenReply {
        status_ok: true,
        status: "200 OK".into(),
        error: None,
        card: Some("S2".into()),
        card_written: "\"S2\"".into(),
        player,
    };
    let s2 = Card::new(Suit::Spades, Rank::Two);
    assert_eq!(ben_answer(&p, &reply(Some(2))).unwrap(), (s2, None));
    room.state.table.apply(Action::Play { seat: South, card: s2 }).unwrap();
    let p = play_due(&room);
    let (path, q) = ben_query(&ben, &p);
    assert_eq!((path, q.len()), ("/play", 7));
    assert_eq!(q[1], ("dummy", "T5.Q9863.A943.KQ".to_string()));
    assert_eq!(q[2], ("seat", "E".to_string()));
    assert_eq!(q[6], ("played", "S2".to_string()));
    assert_eq!(ben_answer(&p, &reply(Some(1))).unwrap(), (s2, Some(1)));
}

#[test]
fn bens_card_counts_only_if_it_is_legal_and_from_the_right_seat() {
    let p = play_due(&in_3nt());
    let ok = Card::new(Suit::Spades, Rank::Nine);
    let rule = Card::new(Suit::Hearts, Rank::Ace);
    let foreign = Card::new(Suit::Spades, Rank::Ace);
    assert_eq!(choose_card(&p, Some((ok, None)), Some(rule)), (ok, Via::Ben));
    // Declarer East: player 0 is South, the leader.
    assert_eq!(choose_card(&p, Some((ok, Some(0))), Some(rule)), (ok, Via::Ben));
    assert_eq!(choose_card(&p, Some((ok, Some(1))), Some(rule)), (rule, Via::Rules));
    assert_eq!(choose_card(&p, Some((foreign, None)), Some(rule)), (rule, Via::Rules));
    assert_eq!(choose_card(&p, None, Some(rule)), (rule, Via::Rules));
    let picked = pick(&p.legal, p.seq);
    assert_eq!(choose_card(&p, None, None), (picked, Via::Rules));
    assert_eq!(rules_card(&p, None), picked);
    assert!(p.legal.contains(&picked));
}

#[test]
fn a_wrong_answer_still_gives_an_accepted_play() {
    let mut room = in_3nt();
    let p = play_due(&room);
    let foreign = Card::new(Suit::Spades, Rank::Ace);
    let (card, via) = choose_card(&p, Some((foreign, Some(1))), None);
    let mut out = Vec::new();
    let action = Action::Play { seat: p.seat, card };
    let end = finish(&mut room, 0, p.seq, action, via, p.opening_lead, false, &mut out);
    assert_eq!(end, TurnEnd::Done { trick_pause: false });
    assert_eq!(room.state.table.seq(), p.seq + 1);
}

#[test]
fn what_is_asked_goes_by_the_mode_and_the_line() {
    let mut p = play_due(&in_3nt());
    let picked = pick(&p.legal, p.seq);
    assert_eq!(ask_for_card(&p, BotMode::Real), Ask::Ben);
    assert_eq!(ask_for_card(&p, BotMode::Rules), Ask::Rules);
    assert_eq!(ask_for_card(&p, BotMode::Slow), Ask::Rules);
    assert_eq!(ask_for_card(&p, BotMode::Random), Ask::Nothing(picked, Via::Random));
    let card = Card::new(Suit::Spades, Rank::Two);
    p.scripted = Some(card);
    assert_eq!(ask_for_card(&p, BotMode::Real), Ask::Nothing(card, Via::Line));
}

#[test]
fn the_pick_is_deterministic() {
    // 7 * 2654435761 mod 2^64 is 18581050327, and that leaves 1 of 3.
    assert_eq!(pick(&[10, 20, 30], 7), 20);
    assert_eq!(pick(&[10, 20, 30], 0), 10);
}

#[test]
fn board_modes_gate_the_driver() {
    let mut room = in_3nt();
    room.state.board_mode = BoardMode::BidOnly;
    assert!(plan(&room.state, false, 0).is_none());
    room.state.board_mode = BoardMode::BidAndPlay;
    assert!(plan(&room.state, false, 0).is_some());
    assert!(plan(&room.state, true, 0).is_none(), "on hold");
    // On a play-only board bots bid for humans too.
    let mut room = demo_room();
    for sub in ["u1", "u2", "u3", "u4"] {
        room.state.seat_or_rebind(sub, sub);
    }
    assert!(plan(&room.state, false, 0).is_none());
    room.state.board_mode = BoardMode::PlayOnly;
    assert!(matches!(plan(&room.state, false, 0), Some(Pending::Bid(_))));
}

#[test]
fn slow_bots_think_at_north_and_south() {
    assert_eq!(think_ms(North, 7_001), 3_001);
    assert_eq!(think_ms(South, 6_999), 9_999);
    assert_eq!(think_ms(East, 5), 0);
    let t = slow_think(BotMode::Slow, South);
    assert!((3_000..10_000).contains(&t));
    assert_eq!(slow_think(BotMode::Slow, West), 0);
    assert_eq!(slow_think(BotMode::Rules, South), 0);
    // Chance decides: twenty draws are not all the same.
    let draws: Vec<u64> = (0..20).map(|_| slow_think(BotMode::Slow, North)).collect();
    assert!(draws.iter().any(|d| *d != draws[0]));
}

#[test]
fn a_sessions_bots_wait_for_a_set_and_for_the_teacher() {
    let mut s = Session::new(
        "s1".into(),
        SessionKind::Adhoc,
        "o".into(),
        SeatPolicy::Manual,
        vec![],
        1,
    );
    assert!(s.bots_on_hold());
    assert!(s.plan_bot(0, 0).is_none());
    s.load_boards(vec![board(Vulnerability::Neither)], None, None).unwrap();
    assert!(!s.bots_on_hold());
    let b = match s.plan_bot(0, 0) {
        Some(Pending::Bid(b)) => b,
        other => panic!("{other:?}"),
    };
    assert_eq!(b.seat, East);
    s.set_bots_paused(true);
    assert!(s.plan_bot(0, 0).is_none());
    s.take_outbox();
    let action = Action::Call { seat: East, call: call("1C") };
    assert_eq!(
        s.finish_bot(0, b.seq, action, Via::Bba, false),
        TurnEnd::Done { trick_pause: false }
    );
    assert_eq!(s.rooms[0].state.table.seq(), 1);
    assert_eq!(s.take_outbox().len(), 2);
}

#[test]
fn a_whole_board_is_played_by_bots() {
    let mut room = demo_room();
    room.set_bot_mode(BotMode::Random);
    bid(&mut room, "1S");
    let mut out = Vec::new();
    let mut pauses = 0;
    while let Some(pending) = plan(&room.state, false, 0) {
        let (seq, action, via, lead) = match pending {
            Pending::Bid(b) => {
                let (call, via) = ready_call(&b, room.bot_mode()).unwrap();
                (b.seq, Action::Call { seat: b.seat, call }, via, false)
            }
            Pending::Play(p) => match ask_for_card(&p, room.bot_mode()) {
                Ask::Nothing(card, via) => {
                    (p.seq, Action::Play { seat: p.seat, card }, via, p.opening_lead)
                }
                other => panic!("{other:?}"),
            },
        };
        match finish(&mut room, 0, seq, action, via, lead, false, &mut out) {
            TurnEnd::Done { trick_pause } => pauses += trick_pause as u32,
            other => panic!("{other:?}"),
        }
    }
    assert_eq!(pauses, 13);
    let result = room.state.result_json().unwrap();
    assert_eq!(result.tricks_ns + result.tricks_ew, 13);
    let c: ContractOutcome = result.contract.unwrap().contract;
    assert_eq!((c.to_pbn().as_str(), c.declarer), ("1S", North));
}
