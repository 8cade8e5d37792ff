//! The demo room (dev): a standing table outside any session.

use vstd::prelude::*;

use crate::boards::{board_of, short_board_words, ParsedBoard};
use crate::cards::{Card, Direction, SeatSet};
use crate::dealer::{available, prepare, prepared, DealerClient, DealerError, MAX_SCRIPT_BYTES};
use crate::deals::{
    board_from_pbn, dealt, deck, law_dealt_evenly, law_dealt_in_quarters, law_deck, random_board,
    rotated,
};
use crate::events::{law_deal_source_names, DealSource, Event, Notice};
use crate::rooms::{
    law_board_mode_names, law_come_back, law_seat_of, law_sit_and_get_up, BoardMode, BotMode,
    OccupantView, Room, RoomInnerView, RoomView,
};
use crate::routes::ws::client::{
    handle_table_msg, law_table_frames, refused, table_outcome, Outcome,
};
use crate::routes::ws::{err_msg, error, said, seats_event, seats_told, ErrorFrame, ErrorView, Frame};
use crate::seating::text_view;
use crate::table::{BoardSetup, BoardView, TableState, TableView};
use crate::text::same;

verus! {

/// The longest PBN that a client may bring, in bytes.
pub const MAX_PBN_BYTES: usize = 65_536;

/// The demo room's place among the tables that notices name.
pub const DEMO_TABLE: usize = 0;

/// What is said of a script that the dealer service did not deal from.
pub fn dealer_failed(msg: &str) -> (r: ErrorFrame)
    ensures
        r@ == (ErrorView { code: "dealer_failed"@, msg: msg@ }),
{
    err_msg("dealer_failed", msg)
}

/// Whether a frame is a deal frame with a script, from somebody who may deal.
pub open spec fn is_script_deal(seat: Option<Direction>, frame: Frame) -> bool {
    frame.is_a("deal"@) && seat is Some && text_view(frame.source) == Some("script"@)
}

/// The script that goes to the dealer service for a script deal, or why none does.
pub open spec fn script_sent(available: bool, frame: Frame) -> Result<Seq<char>, ErrorView> {
    match text_view(frame.script) {
        None => Err(ErrorView { code: "bad_script"@, msg: "deal.script missing"@ }),
        Some(script) => if !available {
            Err(
                ErrorView {
                    code: "dealer_unavailable"@,
                    msg: "script deals aren't set up on this server yet"@,
                },
            )
        } else if vstd::utf8::encode_utf8(script).len() > MAX_SCRIPT_BYTES {
            Err(ErrorView { code: "dealer_failed"@, msg: DealerError::TooLarge.words() })
        } else {
            Ok(prepared(script))
        },
    }
}

/// A script is sent exactly if there is one, of at most thirty-two kilobytes, and a
/// service to send it to; it is sent to produce one deal. Each refusal has its own
/// code.
pub proof fn law_script_sent(available: bool, frame: Frame)
    ensures
        ({
            let r = script_sent(available, frame);
            &&& r is Ok <==> available && (frame.script matches Some(s)
                && vstd::utf8::encode_utf8(s@).len() <= 32 * 1024)
            &&& r matches Ok(sent) ==> "produce 1\n"@.is_prefix_of(sent)
            &&& frame.script is None ==> r->Err_0.code == "bad_script"@
            &&& frame.script is Some && !available ==> r->Err_0.code == "dealer_unavailable"@
            &&& frame.script is Some && available && r is Err ==> r->Err_0.code
                == "dealer_failed"@ && r->Err_0.msg == "script too large"@
        }),
{
    if let Ok(sent) = script_sent(available, frame) {
        assert(sent.subrange(0, "produce 1\n"@.len() as int) =~= "produce 1\n"@);
    }
}

/// Script deals go to the dealer service first. For such a frame, the script to
/// send there, or why it is not sent; `None` for every other frame.
pub fn script_to_send(client: &Option<DealerClient>, seat: Option<Direction>, frame: &Frame) -> (r:
    Option<Result<String, ErrorFrame>>)
    ensures
        r is Some == is_script_deal(seat, *frame),
        r matches Some(sent) ==> match sent {
            Ok(script) => *client is Some && frame.script is Some && script@ == prepared(
                frame.script->0@,
            ) && vstd::utf8::encode_utf8(frame.script->0@).len() <= MAX_SCRIPT_BYTES,
            Err(e) => Some(e@) == (if frame.script is None {
                error("bad_script"@, "deal.script missing"@)
            } else if *client is None {
                error("dealer_unavailable"@, "script deals aren't set up on this server yet"@)
            } else {
                error("dealer_failed"@, DealerError::TooLarge.words())
            }) && (frame.script is Some && *client is Some ==> vstd::utf8::encode_utf8(
                frame.script->0@,
            ).len() > MAX_SCRIPT_BYTES),
        },
        r matches Some(sent) ==> match sent {
            Ok(script) => script_sent(*client is Some, *frame) == Ok::<Seq<char>, ErrorView>(
                script@,
            ),
            Err(e) => script_sent(*client is Some, *frame) == Err::<Seq<char>, ErrorView>(e@),
        },
{
    if !frame.kind_is("deal") || seat.is_none() {
        return None;
    }
    match &frame.source {
        Some(source) => {
            if !same(source.as_str(), "script") {
                return None;
            }
        },
        None => {
            return None;
        },
    }
    let script = match &frame.script {
        Some(script) => script,
        None => {
            return Some(Err(err_msg("bad_script", "deal.script missing")));
        },
    };
    if !available(client) {
        return Some(
            Err(err_msg("dealer_unavailable", "script deals aren't set up on this server yet")),
        );
    }
    match prepare(script.as_str()) {
        Ok(script) => Some(Ok(script)),
        Err(e) => Some(Err(dealer_failed(e.message()))),
    }
}

/// The board that a client brought, or what is wrong with it. `read` is what was
/// made of its text.
pub open spec fn brought(read: Result<Vec<ParsedBoard>, String>, rotate: int, number: u32) -> Result<
    BoardView,
    Seq<char>,
> {
    match read {
        Err(e) => Err("bad PBN: "@ + e@),
        Ok(boards) => if boards@.len() == 0 {
            Err("no boards in PBN"@)
        } else if boards@[0].deal@.total_cards() != 52 {
            Err(short_board_words(boards@, 0))
        } else {
            Ok(rotated(board_of(boards@[0], 0), rotate, number))
        },
    }
}

fn bring(read: &Result<Vec<ParsedBoard>, String>, rotate: u8, number: u32) -> (r: Result<
    BoardSetup,
    String,
>)
    requires
        rotate < 4,
    ensures
        match r {
            Ok(board) => brought(*read, rotate as int, number) == Ok::<BoardView, Seq<char>>(
                board@,
            ),
            Err(e) => brought(*read, rotate as int, number) == Err::<BoardView, Seq<char>>(e@),
        },
{
    match read {
        Ok(boards) => board_from_pbn(boards, rotate, number),
        Err(e) => Err(crate::seating::joined("bad PBN: ", e.as_str())),
    }
}

/// How many seats a frame turns a board.
pub open spec fn turns(frame: Frame) -> int {
    match frame.rotate {
        Some(n) => n as int % 4,
        None => 0,
    }
}

/// The board that a deal frame asks for, or what is wrong with it; `None` is the
/// same board again. `number` is the next board's, and `drawn` is the board that
/// a random deal draws.
pub open spec fn asked_board(number: u32, frame: Frame, drawn: BoardView) -> Result<
    Option<BoardView>,
    ErrorView,
> {
    let source = match text_view(frame.source) {
        Some(s) => s,
        None => ""@,
    };
    match DealSource::named(source) {
        None => Err(
            ErrorView {
                code: "bad_source"@,
                msg: "source must be random, replay, pbn, or script"@,
            },
        ),
        Some(DealSource::Replay) => Ok(None),
        Some(DealSource::Random) => Ok(Some(drawn)),
        Some(DealSource::Pbn) => match text_view(frame.pbn) {
            None => Err(ErrorView { code: "bad_pbn"@, msg: "deal.pbn missing"@ }),
            Some(pbn) => if vstd::utf8::encode_utf8(pbn).len() > MAX_PBN_BYTES {
                Err(ErrorView { code: "bad_pbn"@, msg: "PBN too large"@ })
            } else {
                brought_board(number, frame)
            },
        },
        Some(DealSource::Script) => brought_board(number, frame),
    }
}

/// The board that came with a frame.
pub open spec fn brought_board(number: u32, frame: Frame) -> Result<Option<BoardView>, ErrorView> {
    match brought(frame.boards, turns(frame), number) {
        Ok(board) => Ok(Some(board)),
        Err(e) => Err(ErrorView { code: "bad_pbn"@, msg: e }),
    }
}

/// Whether a frame puts a new board on the table, if one can be had: the board
/// takes the next number.
pub open spec fn takes_next_number(seat: Option<Direction>, frame: Frame) -> bool {
    frame.is_a("deal"@) && seat is Some && frame.source is Some && match DealSource::named(
        frame.source->0@,
    ) {
        Some(DealSource::Random) => true,
        Some(DealSource::Script) => true,
        Some(DealSource::Pbn) => frame.pbn is Some && vstd::utf8::encode_utf8(frame.pbn->0@).len()
            <= MAX_PBN_BYTES,
        _ => false,
    }
}

/// What a deal frame leaves on the table.
pub open spec fn deal_table(t: TableView, frame: Frame, drawn: BoardView) -> Result<
    TableView,
    ErrorView,
> {
    match asked_board((t.board.number + 1) as u32, frame, drawn) {
        // Same board again: the log truncated to nothing.
        Ok(None) => Ok(t.rewound(0)),
        Ok(Some(board)) => Ok(TableView::fresh(board)),
        Err(e) => Err(e),
    }
}

/// The room's board mode as a frame leaves it: a mode that it names sticks.
pub open spec fn mode_after(mode: BoardMode, frame: Frame) -> BoardMode {
    match text_view(frame.mode) {
        Some(m) => match BoardMode::named(m) {
            Some(mode) => mode,
            None => mode,
        },
        None => mode,
    }
}

/// A deal frame at the demo table: any seated player may re-deal. An optional
/// sticky board mode rides along with the deal.
pub open spec fn deal_outcome(
    room: RoomView,
    seat: Option<Direction>,
    frame: Frame,
    drawn: BoardView,
) -> Outcome {
    let moded = RoomView {
        state: RoomInnerView {
            board_mode: mode_after(room.state.board_mode, frame),
            ..room.state
        },
        ..room
    };
    if seat is None {
        refused(room, "not_seated"@, "kibitzers cannot deal"@)
    } else {
        match deal_table(room.state.table, frame, drawn) {
            Err(e) => Outcome { room: moded, told: seq![], error: Some(e) },
            Ok(table) => Outcome {
                room: RoomView {
                    state: RoomInnerView { table, ready: SeatSet::none(), ..moded.state },
                    bba_cache: None,
                    ..moded
                },
                told: seq![
                    Notice::Event {
                        table: DEMO_TABLE,
                        event: Event::BoardDealt {
                            board_no: table.board.number,
                            source: DealSource::named(text_view(frame.source)->0)->0,
                        },
                    },
                    Notice::Resync { table: DEMO_TABLE },
                    Notice::Kick { table: DEMO_TABLE },
                ],
                error: None,
            },
        }
    }
}

/// What a board that was asked for is, or what is said of it.
pub open spec fn board_result(r: Result<Option<BoardSetup>, ErrorFrame>) -> Result<
    Option<BoardView>,
    ErrorView,
> {
    match r {
        Ok(Some(board)) => Ok(Some(board@)),
        Ok(None) => Ok(None),
        Err(e) => Err(e@),
    }
}

/// The board that came with a frame.
fn bring_board(number: u32, frame: &Frame) -> (r: Result<Option<BoardSetup>, ErrorFrame>)
    ensures
        board_result(r) == brought_board(number, *frame),
{
    let rotate: u8 = match frame.rotate {
        Some(n) => (n % 4) as u8,
        None => 0,
    };
    assert(rotate == turns(*frame));
    match bring(&frame.boards, rotate, number) {
        Ok(board) => Ok(Some(board)),
        Err(e) => Err(err_msg("bad_pbn", e.as_str())),
    }
}

/// The board that a deal frame asks for.
fn ask_board(number: u32, source: DealSource, frame: &Frame, drawn: BoardSetup) -> (r: Result<
    Option<BoardSetup>,
    ErrorFrame,
>)
    requires
        text_view(frame.source) is Some,
        DealSource::named(text_view(frame.source)->0) == Some(source),
    ensures
        board_result(r) == asked_board(number, *frame, drawn@),
{
    match source {
        DealSource::Replay => Ok(None),
        DealSource::Random => Ok(Some(drawn)),
        // Client-fetched deals (scenario/lesson PBNs, pasted PBN,
        // URL-parameter deals) all come through this one door.
        DealSource::Pbn => match &frame.pbn {
            Some(pbn) => if pbn.as_str().as_bytes().len() > MAX_PBN_BYTES {
                Err(err_msg("bad_pbn", "PBN too large"))
            } else {
                bring_board(number, frame)
            },
            None => Err(err_msg("bad_pbn", "deal.pbn missing")),
        },
        DealSource::Script => bring_board(number, frame),
    }
}

/// The number of the board after a table's; the last number of all stays.
fn next_number(table: &TableState) -> (r: u32)
    ensures
        table@.board.number < u32::MAX ==> r == table@.board.number + 1,
{
    if table.board.number < u32::MAX {
        table.board.number + 1
    } else {
        table.board.number
    }
}

/// Puts a board on the table, or rewinds the one that is there.
fn put_board(room: &mut Room, board: Option<BoardSetup>)
    requires
        old(room)@.state.wf(),
    ensures
        final(room)@.state.wf(),
        final(room)@ == (RoomView {
            state: RoomInnerView {
                table: match board {
                    Some(board) => TableView::fresh(board@),
                    None => old(room)@.state.table.rewound(0),
                },
                ready: SeatSet::none(),
                ..old(room)@.state
            },
            bba_cache: None,
            ..old(room)@
        }),
{
    match board {
        Some(board) => {
            room.state.table = TableState::new(board);
        },
        None => {
            let _ = room.state.table.undo_to(0);
            assert(room.state.table@ =~= old(room)@.state.table.rewound(0));
        },
    }
    room.state.ready = SeatSet::new();
    // A new (or rewound) board invalidates the predicted auction.
    room.bba_cache = None;
}

/// A deal frame, with the board that a random deal draws. The boards of a
/// script deal are what was made of the dealer service's answer.
pub fn deal_with(
    room: &mut Room,
    seat: Option<Direction>,
    frame: &Frame,
    drawn: BoardSetup,
    out: &mut Vec<Notice>,
) -> (r: Option<ErrorFrame>)
    requires
        old(room)@.state.wf(),
        frame.is_a("deal"@),
        takes_next_number(seat, *frame) ==> old(room)@.state.table.board.number < u32::MAX,
    ensures
        final(room)@.state.wf(),
        ({
            let o = deal_outcome(old(room)@, seat, *frame, drawn@);
            &&& final(room)@ == o.room
            &&& final(out)@ == old(out)@ + o.told
            &&& said(r) == o.error
        }),
{
    if seat.is_none() {
        return Some(err_msg("not_seated", "kibitzers cannot deal"));
    }
    let ghost o = deal_outcome(room@, seat, *frame, drawn@);
    // Optional sticky board mode rides along with the deal.
    let mode = match &frame.mode {
        Some(m) => BoardMode::parse(m.as_str()),
        None => None,
    };
    if let Some(m) = mode {
        room.state.board_mode = m;
    }
    let named = match &frame.source {
        Some(s) => DealSource::parse(s.as_str()),
        None => None,
    };
    proof {
        lemma_no_source();
    }
    let source = match named {
        Some(source) => source,
        None => {
            assert(room@ =~= o.room);
            return Some(
                err_msg("bad_source", "source must be random, replay, pbn, or script"),
            );
        },
    };
    let number: u32 = next_number(&room.state.table);
    let board = match ask_board(number, source, frame, drawn) {
        Ok(board) => board,
        Err(e) => {
            assert(room@ =~= o.room);
            return Some(e);
        },
    };
    put_board(room, board);
    let board_no: u32 = room.state.table.board.number;
    out.push(Notice::Event { table: DEMO_TABLE, event: Event::BoardDealt { board_no, source } });
    out.push(Notice::Resync { table: DEMO_TABLE });
    out.push(Notice::Kick { table: DEMO_TABLE });
    proof {
        assert(room@ =~= o.room);
        assert(out@ =~= old(out)@ + o.told);
    }
    None
}

/// The empty text names no source.
proof fn lemma_no_source()
    ensures
        DealSource::named(""@) is None,
{
    reveal_strlit("");
    reveal_strlit("replay");
    reveal_strlit("random");
    reveal_strlit("pbn");
    reveal_strlit("script");
    assert(""@.len() == 0 && "replay"@.len() == 6 && "random"@.len() == 6 && "pbn"@.len() == 3
        && "script"@.len() == 6);
}

/// A board that a random deal may draw.
pub open spec fn is_random_deal(number: u32, board: BoardView) -> bool {
    exists|cards: Seq<Card>|
        cards.len() == 52 && cards.to_multiset() == deck().to_multiset() && board
            == #[trigger] dealt(number, cards)
}

/// Whether a frame asks for a random deal, from somebody who may deal.
pub open spec fn wants_random(seat: Option<Direction>, frame: Frame) -> bool {
    frame.is_a("deal"@) && seat is Some && frame.source is Some && DealSource::named(
        frame.source->0@,
    ) == Some(DealSource::Random)
}

/// What a frame does at the demo table.
pub open spec fn demo_outcome(
    room: RoomView,
    seat: Option<Direction>,
    frame: Frame,
    now: u64,
    drawn: BoardView,
) -> Outcome {
    match table_outcome(room, DEMO_TABLE, false, seat, frame, now) {
        Some(o) => o,
        None => if frame.is_a("ready_next_board"@) {
            match seat {
                None => refused(room, "not_seated"@, "kibitzers cannot ready up"@),
                Some(_) => refused(room, "no_session"@, "the demo table has no board rounds"@),
            }
        } else if frame.is_a("deal"@) {
            deal_outcome(room, seat, frame, drawn)
        } else {
            refused(room, "unknown"@, "unknown message type"@)
        },
    }
}

/// Apply one client's frame to the demo room. Returns an error frame to send
/// back to *this* client only (successful actions are told to the whole
/// room). `now` is the time in milliseconds. Only a random deal draws a board;
/// whatever it draws, it is the fifty-two cards in some order.
pub fn handle_demo_msg(
    room: &mut Room,
    seat: Option<Direction>,
    frame: &Frame,
    now: u64,
    out: &mut Vec<Notice>,
) -> (r: Option<ErrorFrame>)
    requires
        old(room)@.state.wf(),
        takes_next_number(seat, *frame) ==> old(room)@.state.table.board.number < u32::MAX,
    ensures
        final(room)@.state.wf(),
        exists|drawn: BoardView|
            (wants_random(seat, *frame) ==> is_random_deal(
                (old(room)@.state.table.board.number + 1) as u32,
                drawn,
            )) && ({
                let o = #[trigger] demo_outcome(old(room)@, seat, *frame, now, drawn);
                &&& final(room)@ == o.room
                &&& final(out)@ == old(out)@ + o.told
                &&& said(r) == o.error
            }),
{
    let source = match &frame.source {
        Some(s) => DealSource::parse(s.as_str()),
        None => None,
    };
    let random = frame.kind_is("deal") && seat.is_some() && matches!(
        source,
        Some(DealSource::Random)
    );
    let drawn = if random {
        random_board(next_number(&room.state.table))
    } else {
        room.state.table.board.copy()
    };
    let ghost o = demo_outcome(room@, seat, *frame, now, drawn@);
    if let Some(reply) = handle_table_msg(room, DEMO_TABLE, false, seat, frame, now, out) {
        return reply;
    }
    if frame.kind_is("ready_next_board") {
        assert(out@ =~= old(out)@ + o.told);
        match seat {
            None => Some(err_msg("not_seated", "kibitzers cannot ready up")),
            Some(_) => Some(err_msg("no_session", "the demo table has no board rounds")),
        }
    } else if frame.kind_is("deal") {
        deal_with(room, seat, frame, drawn, out)
    } else {
        assert(out@ =~= old(out)@ + o.told);
        Some(err_msg("unknown", "unknown message type"))
    }
}

/// The demo room after somebody joined: seated, or back in their seat.
pub open spec fn demo_joined(
    room: RoomView,
    sub: Seq<char>,
    name: Seq<char>,
    mode: Option<BotMode>,
) -> (RoomView, Option<Direction>) {
    let moded = match mode {
        Some(mode) => RoomView { bot_mode: mode, ..room },
        None => room,
    };
    let state = room.state;
    match state.seats.seat_of(sub) {
        Some(seat) => (RoomView { state: state.rebound(seat, name), ..moded }, Some(seat)),
        None => match state.first_vacant() {
            Some(seat) => (
                RoomView {
                    state: RoomInnerView {
                        ready: state.ready,
                        ..state.placed(seat, crate::rooms::fresh_occupant(sub, name))
                    },
                    ..moded
                },
                Some(seat),
            ),
            None => (moded, None),
        },
    }
}

/// Somebody joins the demo room. A hello's choice of bots flips the whole room
/// to that backend (sticky; absent leaves the mode untouched).
pub fn join_demo(room: &mut Room, sub: &str, name: &str, mode: Option<BotMode>, out: &mut Vec<Notice>) -> (r:
    Option<Direction>)
    requires
        old(room)@.state.wf(),
    ensures
        final(room)@.state.wf(),
        (final(room)@, r) == demo_joined(old(room)@, sub@, name@, mode),
        final(out)@ == old(out)@ + seq![
            Notice::Event { table: DEMO_TABLE, event: seats_told(final(room)@.state) },
            Notice::Keepalive { table: DEMO_TABLE },
            Notice::Kick { table: DEMO_TABLE },
        ],
{
    if let Some(mode) = mode {
        room.set_bot_mode(mode);
    }
    let seat = room.state.seat_or_rebind(sub, name);
    out.push(Notice::Event { table: DEMO_TABLE, event: seats_event(&room.state) });
    out.push(Notice::Keepalive { table: DEMO_TABLE });
    out.push(Notice::Kick { table: DEMO_TABLE });
    proof {
        assert(room@ =~= demo_joined(old(room)@, sub@, name@, mode).0);
        assert(out@ =~= old(out)@ + seq![
            Notice::Event { table: DEMO_TABLE, event: seats_told(room@.state) },
            Notice::Keepalive { table: DEMO_TABLE },
            Notice::Kick { table: DEMO_TABLE },
        ]);
    }
    seat
}

/// Somebody's socket at the demo room is gone. The seat stays bound to them (a
/// reconnect rebinds it); after the grace period the bots play for it.
pub fn leave_demo(room: &mut Room, sub: &str, now: u64, out: &mut Vec<Notice>)
    requires
        old(room)@.state.wf(),
    ensures
        final(room)@.state.wf(),
        final(room)@ == (RoomView {
            state: old(room)@.state.disconnected(sub@, now),
            ..old(room)@
        }),
        final(out)@ == old(out)@.push(
            Notice::Event { table: DEMO_TABLE, event: seats_told(final(room)@.state) },
        ),
{
    room.state.mark_disconnected(sub, now);
    out.push(Notice::Event { table: DEMO_TABLE, event: seats_event(&room.state) });
    assert(room@ =~= (RoomView {
        state: old(room)@.state.disconnected(sub@, now),
        ..old(room)@
    }));
}

/// A deal that is refused leaves the board, its log and the seats alone.
pub proof fn law_refused_deals_keep_the_board(
    room: RoomView,
    seat: Option<Direction>,
    frame: Frame,
    drawn: BoardView,
)
    requires
        deal_outcome(room, seat, frame, drawn).error is Some,
    ensures
        ({
            let o = deal_outcome(room, seat, frame, drawn);
            &&& o.room.state.table == room.state.table
            &&& o.room.state.seats == room.state.seats
            &&& o.room.state.ready == room.state.ready
            &&& o.room.bba_cache == room.bba_cache
            &&& o.told.len() == 0
        }),
{
}

/// A frame turns a board by as many seats as it says, full turns aside, and not
/// at all if it says nothing.
pub proof fn law_turns(frame: Frame)
    ensures
        0 <= turns(frame) < 4,
        frame.rotate matches Some(n) ==> (n - turns(frame)) % 4 == 0,
        frame.rotate is None ==> turns(frame) == 0,
{
}

/// The mode that a deal frame names holds from then on; one that it does not
/// name, or a name of none, leaves the mode as it was.
pub proof fn law_mode_sticks(mode: BoardMode, named: BoardMode, frame: Frame)
    ensures
        text_view(frame.mode) == Some(named.name()) ==> mode_after(mode, frame) == named,
        frame.mode is None ==> mode_after(mode, frame) == mode,
        text_view(frame.mode) matches Some(m) ==> (m != "bid_and_play"@ && m != "bid_only"@ && m
            != "play_only"@ ==> mode_after(mode, frame) == mode),
{
    law_board_mode_names(named, named);
}

/// A board that a client brings is the first of those that were read, turned as
/// the frame says and numbered next. Nothing that could not be read, no board at
/// all, or a first board without all its cards is brought.
pub proof fn law_brought(read: Result<Vec<ParsedBoard>, String>, rotate: int, number: u32)
    ensures
        ({
            let r = brought(read, rotate, number);
            &&& r is Ok <==> read is Ok && read->Ok_0@.len() > 0
                && read->Ok_0@[0].deal@.total_cards() == 52
            &&& r matches Ok(board) ==> board.number == number && board == rotated(
                board_of(read->Ok_0@[0], 0),
                rotate,
                number,
            )
            &&& read matches Err(e) ==> r == Err::<BoardView, Seq<char>>("bad PBN: "@ + e@)
            &&& read is Ok && read->Ok_0@.len() == 0 ==> r == Err::<BoardView, Seq<char>>(
                "no boards in PBN"@,
            )
        }),
{
}

/// What a seated player's deal frame leaves on the table: a replay leaves the same
/// board and a random deal the board that is drawn; PBN and script deals leave the
/// board that was brought, under the next number. Nothing has been called or
/// played there. A source of another name is refused.
pub proof fn law_deals(room: RoomView, seat: Direction, frame: Frame, drawn: BoardView)
    requires
        room.state.table.board.number < u32::MAX,
    ensures
        ({
            let o = deal_outcome(room, Some(seat), frame, drawn);
            let source = text_view(frame.source);
            let table = o.room.state.table;
            let number = room.state.table.board.number;
            let came = brought(frame.boards, turns(frame), (number + 1) as u32);
            let fits = frame.pbn is Some && vstd::utf8::encode_utf8(frame.pbn->0@).len() <= 65_536;
            &&& o.error is None ==> table.log.len() == 0
            &&& source == Some("replay"@) ==> o.error is None && table.board
                == room.state.table.board
            &&& source == Some("random"@) ==> o.error is None && table.board == drawn
            &&& source == Some("script"@) ==> (o.error is None <==> came is Ok)
            &&& source == Some("pbn"@) ==> (o.error is None <==> fits && came is Ok)
            &&& (source == Some("script"@) || source == Some("pbn"@)) && o.error is None
                ==> table.board == came->Ok_0 && table.board.number == number + 1
            &&& (source == Some("script"@) || source == Some("pbn"@)) && o.error is Some
                ==> o.error->0.code == "bad_pbn"@
            &&& source != Some("replay"@) && source != Some("random"@) && source != Some("pbn"@)
                && source != Some("script"@) ==> (o.error matches Some(e) && e.code
                == "bad_source"@)
            &&& deal_outcome(room, None, frame, drawn).error->0.code == "not_seated"@
        }),
{
    law_deal_source_names(DealSource::Replay, DealSource::Random);
    law_deal_source_names(DealSource::Pbn, DealSource::Script);
    law_deal_source_names(DealSource::Random, DealSource::Script);
    law_deal_source_names(DealSource::Replay, DealSource::Script);
    lemma_no_source();
    law_brought(frame.boards, turns(frame), (room.state.table.board.number + 1) as u32);
}

/// After a deal nobody is ready, the predicted auction is forgotten, and everybody
/// stays where they sit; the table is told which board came from where, looks
/// again, and its bots are started.
pub proof fn law_deal_is_told(
    room: RoomView,
    seat: Option<Direction>,
    frame: Frame,
    drawn: BoardView,
    e: Direction,
)
    requires
        deal_outcome(room, seat, frame, drawn).error is None,
    ensures
        ({
            let o = deal_outcome(room, seat, frame, drawn);
            &&& !o.room.state.ready.has(e) && o.room.bba_cache is None
            &&& o.room.state.seats == room.state.seats && o.room.bot_mode == room.bot_mode
            &&& o.room.state.board_mode == mode_after(room.state.board_mode, frame)
            &&& o.told.len() == 3
            &&& o.told[0] matches Notice::Event {
                table,
                event: Event::BoardDealt { board_no, source },
            } && table == DEMO_TABLE && board_no == o.room.state.table.board.number && Some(
                source.name(),
            ) == text_view(frame.source)
            &&& o.told[1] == (Notice::Resync { table: DEMO_TABLE })
            &&& o.told[2] == (Notice::Kick { table: DEMO_TABLE })
        }),
{
    lemma_no_source();
}

/// A random deal has its number, gives everybody thirteen cards, and deals every
/// card to somebody.
pub proof fn law_random_deal(number: u32, board: BoardView, seat: Direction, card: Card)
    requires
        is_random_deal(number, board),
    ensures
        board.number == number,
        board.deal.hand(seat).len() == 13,
        board.deal.total_cards() == 52,
        board.play_line is None,
        exists|d: Direction| #[trigger] board.deal.hand(d).contains(card),
{
    broadcast use vstd::seq_lib::group_to_multiset_ensures;

    let cards = choose|cards: Seq<Card>|
        cards.len() == 52 && cards.to_multiset() == deck().to_multiset() && board
            == #[trigger] dealt(number, cards);
    law_dealt_evenly(number, cards, seat);
    law_deck(card);
    assert(cards.to_multiset().contains(card));
    let at = choose|at: int| 0 <= at < cards.len() && cards[at] == card;
    let (q, k) = (at / 13, at % 13);
    let d = Direction::North.plus(q);
    law_dealt_in_quarters(number, cards, q, k);
    law_dealt_evenly(number, cards, d);
    assert(board.deal.hand(d)[k] == card);
    assert(board.deal.hand(d).contains(card));
}

/// Which frames ask for a script deal, and which for a random one: deal frames of
/// the seated, by the name of their source.
pub proof fn law_which_deals(seat: Option<Direction>, frame: Frame)
    ensures
        is_script_deal(seat, frame) <==> seat is Some && text_view(frame.t) == Some("deal"@)
            && text_view(frame.source) == Some("script"@),
        wants_random(seat, frame) <==> seat is Some && text_view(frame.t) == Some("deal"@)
            && text_view(frame.source) == Some("random"@),
        takes_next_number(seat, frame) ==> seat is Some && text_view(frame.t) == Some("deal"@)
            && text_view(frame.source) != Some("replay"@),
        is_script_deal(seat, frame) || wants_random(seat, frame) ==> takes_next_number(seat, frame),
{
    law_deal_source_names(DealSource::Replay, DealSource::Random);
    law_deal_source_names(DealSource::Random, DealSource::Script);
    law_deal_source_names(DealSource::Script, DealSource::Pbn);
}

/// At the demo table a frame of a known kind does what it does at any table, a
/// deal frame deals, and there are no rounds to be ready for.
pub proof fn law_demo_frames(
    room: RoomView,
    seat: Option<Direction>,
    frame: Frame,
    now: u64,
    drawn: BoardView,
)
    ensures
        ({
            let o = demo_outcome(room, seat, frame, now, drawn);
            let known = table_outcome(room, DEMO_TABLE, false, seat, frame, now);
            &&& known matches Some(k) ==> o == k
            &&& frame.is_a("deal"@) ==> o == deal_outcome(room, seat, frame, drawn)
            &&& frame.is_a("ready_next_board"@) ==> o.room == room && o.told.len() == 0
                && o.error->0.code == (if seat is Some {
                "no_session"@
            } else {
                "not_seated"@
            })
            &&& known is None && !frame.is_a("deal"@) && !frame.is_a("ready_next_board"@)
                ==> o.room == room && o.told.len() == 0 && o.error->0.code == "unknown"@
        }),
{
    law_table_frames(room, DEMO_TABLE, false, seat, frame, now);
    reveal_strlit("pong");
    reveal_strlit("bid");
    reveal_strlit("play");
    reveal_strlit("undo");
    reveal_strlit("deal");
    reveal_strlit("ready_next_board");
    assert("ready_next_board"@.len() == 16 && "bid"@.len() == 3);
    assert("pong"@[0] == 'p' && "play"@[0] == 'p' && "undo"@[0] == 'u' && "deal"@[0] == 'd');
    assert("deal"@.len() == 4 && "play"@.len() == 4 && "pong"@.len() == 4 && "undo"@.len() == 4);
}

/// Whoever joins the demo room and holds a seat there is back in it; anybody else
/// gets the first vacant seat, and watches only if there is none. No other seat
/// changes, and the bots are those that were asked for last.
pub proof fn law_demo_join(
    room: RoomView,
    sub: Seq<char>,
    name: Seq<char>,
    mode: Option<BotMode>,
    e: Direction,
)
    ensures
        ({
            let (after, given) = demo_joined(room, sub, name, mode);
            &&& mode matches Some(m) ==> after.bot_mode == m
            &&& mode is None ==> after.bot_mode == room.bot_mode
            &&& given matches Some(d) ==> after.state.seats.get(d) == Some(
                OccupantView { sub, name, connected: true, disconnected_at: None },
            )
            &&& given != Some(e) ==> after.state.seats.get(e) == room.state.seats.get(e)
            &&& room.state.seats.held_by(e, sub) ==> (given matches Some(d)
                && room.state.seats.held_by(d, sub))
            &&& room.state.seats.seat_of(sub) is None ==> given == room.state.first_vacant()
            &&& after.state.table == room.state.table && after.state.ready == room.state.ready
        }),
{
    law_seat_of(room.state.seats, sub);
    if let Some(d) = room.state.seats.seat_of(sub) {
        law_come_back(room.state, d, name, sub);
    } else if let Some(d) = room.state.first_vacant() {
        law_sit_and_get_up(room.state, d, crate::rooms::fresh_occupant(sub, name));
    }
}

} // verus!
