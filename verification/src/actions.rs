//! What a table tells of an action.

use vstd::prelude::*;

use crate::cards::{Call, Card, Direction};
use crate::events::{Event, Notice, Via};
use crate::table::{Action, Folded, FoldedView, Phase, TableState, TableView};

verus! {

/// Who won the trick that has just been completed, if one has.
pub open spec fn trick_winner_of(f: FoldedView) -> Option<Direction> {
    let trick_done = match f.current_trick {
        None => true,
        Some((_, plays)) => plays.len() == 0,
    };
    if trick_done && f.completed_tricks.len() > 0 {
        Some(f.completed_tricks.last().2)
    } else {
        None
    }
}

/// Who won the trick that has just been completed: the play was a trick's 4th
/// card iff the current trick is now empty (or play is done).
pub fn trick_winner(f: &Folded) -> (r: Option<Direction>)
    ensures
        r == trick_winner_of(f@),
{
    let trick_done = match &f.current_trick {
        None => true,
        Some((_, plays)) => plays.len() == 0,
    };
    if trick_done && f.completed_tricks.len() > 0 {
        let last: usize = f.completed_tricks.len() - 1;
        assert(f@.completed_tricks.last() == f@.completed_tricks[last as int]);
        Some(f.completed_tricks[last].2)
    } else {
        None
    }
}

/// What is told of an action that has led to this table.
pub open spec fn action_event(t: TableView, action: Action, via: Option<Via>) -> Event {
    let f = t.folded();
    let seq = t.log.len() as usize;
    match action {
        Action::Call { seat, call } => Event::BidMade {
            seq,
            seat,
            call,
            via,
            next_to_act: f.next_to_act,
        },
        Action::Play { seat, card } => Event::CardPlayed {
            seq,
            seat,
            card,
            via,
            next_to_act: f.next_to_act,
            trick_winner: trick_winner_of(f),
            tricks_ns: f.tricks_ns as u8,
            tricks_ew: f.tricks_ew as u8,
        },
    }
}

/// Everything that is told of an action that has led to this table: the action;
/// that everybody looks again, after an opening lead (dummy goes face up); the
/// result and that everybody looks again, if the board is complete; and that
/// the lobby has changed, at a session's table.
pub open spec fn told(
    t: TableView,
    table: usize,
    action: Action,
    via: Option<Via>,
    opening_lead: bool,
    in_session: bool,
) -> Seq<Notice> {
    seq![Notice::Event { table, event: action_event(t, action, via) }] + (if opening_lead {
        seq![Notice::Resync { table }]
    } else {
        seq![]
    }) + (match completion(t) {
        Some(event) => seq![Notice::Event { table, event }, Notice::Resync { table }],
        None => seq![],
    }) + (if in_session {
        seq![Notice::Lobby]
    } else {
        seq![]
    })
}

/// What is told of a board that is complete.
pub open spec fn completion(t: TableView) -> Option<Event> {
    match t.result() {
        Some(result) => Some(Event::BoardComplete { seq: t.log.len() as usize, result }),
        None => None,
    }
}

/// The board_complete event for a table, if the board has ended. Results are
/// not persisted — this broadcast is the whole delivery.
pub fn board_complete_msg(state: &TableState) -> (r: Option<Event>)
    requires
        state@.wf(),
    ensures
        r == completion(state@),
{
    proof {
        crate::table::lemma_wf_foldable(*state);
    }
    match state.board_result_json() {
        Some(result) => Some(Event::BoardComplete { seq: state.seq(), result }),
        None => None,
    }
}

/// Posts what is told of an action that has just been applied.
pub fn announce(
    state: &TableState,
    table: usize,
    action: Action,
    via: Option<Via>,
    opening_lead: bool,
    in_session: bool,
    out: &mut Vec<Notice>,
) -> (r: Option<Direction>)
    requires
        state@.wf(),
    ensures
        final(out)@ == old(out)@ + told(state@, table, action, via, opening_lead, in_session),
        r == (match action_event(state@, action, via) {
            Event::CardPlayed { trick_winner, .. } => trick_winner,
            _ => None,
        }),
{
    proof {
        crate::table::lemma_wf_foldable(*state);
    }
    let f = state.fold();
    let seq: usize = state.seq();
    let mut winner = None;
    let event = match action {
        Action::Call { seat, call } => Event::BidMade {
            seq,
            seat,
            call,
            via,
            next_to_act: f.next_to_act,
        },
        Action::Play { seat, card } => {
            winner = trick_winner(&f);
            Event::CardPlayed {
                seq,
                seat,
                card,
                via,
                next_to_act: f.next_to_act,
                trick_winner: winner,
                tricks_ns: f.tricks_ns,
                tricks_ew: f.tricks_ew,
            }
        },
    };
    proof {
        assert(f@ == state@.folded());
        assert(event == action_event(state@, action, via));
    }
    out.push(Notice::Event { table, event });
    if opening_lead {
        out.push(Notice::Resync { table });
    }
    if let Some(event) = board_complete_msg(state) {
        out.push(Notice::Event { table, event });
        out.push(Notice::Resync { table });
    }
    if in_session {
        out.push(Notice::Lobby);
    }
    assert(out@ =~= old(out)@ + told(state@, table, action, via, opening_lead, in_session));
    winner
}

/// What is told of a card: the number of the action and whose card it was; and,
/// if it was the fourth of its trick, who won the trick, which is who leads to
/// the next one; and how many tricks each pair has won by now.
pub proof fn law_card_is_told(t: TableView, seat: Direction, card: Card, via: Option<Via>)
    requires
        t.wf(),
        t.log.len() < usize::MAX,
        t.refusal(Action::Play { seat, card }) is None,
    ensures
        ({
            let after = t.then_do(Action::Play { seat, card });
            let f = after.folded();
            action_event(after, Action::Play { seat, card }, via) matches Event::CardPlayed {
                seq,
                seat: told_seat,
                card: told_card,
                via: told_via,
                next_to_act,
                trick_winner,
                tricks_ns,
                tricks_ew,
            } && {
                &&& seq == t.log.len() + 1 && told_seat == seat && told_card == card && told_via
                    == via
                &&& next_to_act == f.next_to_act
                &&& trick_winner is Some <==> f.played.len() % 4 == 0
                &&& trick_winner matches Some(winner) ==> winner == f.completed_tricks.last().2 && (
                f.phase == Phase::Play ==> next_to_act == Some(winner))
                &&& tricks_ns == crate::table::tricks_taken(
                    f.completed_tricks,
                    Direction::North,
                    Direction::South,
                )
                &&& tricks_ew == crate::table::tricks_taken(f.completed_tricks, Direction::East, Direction::West)
            }
        }),
{
    let action = Action::Play { seat, card };
    let after = t.then_do(action);
    crate::table::lemma_legal_push(t.board, t.log, action);
    crate::table::lemma_result_fits(after.board, after.log);
    crate::table::law_pairs_tricks(after.board.dealer, after.log);
    crate::table::law_whose_turn(after.board.dealer, after.log);
    lemma_play_is_listed(t, seat, card);
}

/// An accepted card is the last one listed, and a contract is being played.
proof fn lemma_play_is_listed(t: TableView, seat: Direction, card: Card)
    requires
        t.refusal(Action::Play { seat, card }) is None,
    ensures
        t.then_do(Action::Play { seat, card }).folded().contract is Some,
        t.then_do(Action::Play { seat, card }).folded().played.len() > 0,
        t.then_do(Action::Play { seat, card }).folded().played.last() == (seat, card),
{
    reveal(crate::table::fold_of);
    let action = Action::Play { seat, card };
    let longer = t.log.push(action);
    assert(longer.drop_last() =~= t.log);
    assert(longer.last() == action);
}

/// What is told of a call: its number, who made it, and who is to act next.
pub proof fn law_call_is_told(t: TableView, seat: Direction, call: Call, via: Option<Via>)
    requires
        t.log.len() < usize::MAX,
    ensures
        ({
            let action = Action::Call { seat, call };
            let after = t.then_do(action);
            action_event(after, action, via) == (Event::BidMade {
                seq: (t.log.len() + 1) as usize,
                seat,
                call,
                via,
                next_to_act: after.folded().next_to_act,
            })
        }),
{
}

/// In what order and to whom an action is told: the table first learns of the
/// action; everybody there looks again after an opening lead and at the end of
/// the board, with whose result the table is told; and a session's lobby is told
/// last.
pub proof fn law_told(
    t: TableView,
    table: usize,
    action: Action,
    via: Option<Via>,
    opening_lead: bool,
    in_session: bool,
)
    ensures
        ({
            let notices = told(t, table, action, via, opening_lead, in_session);
            let complete = t.folded().phase == Phase::Complete;
            &&& notices.len() > 0 && notices[0] == (Notice::Event {
                table,
                event: action_event(t, action, via),
            })
            &&& notices.contains(Notice::Resync { table }) <==> opening_lead || complete
            &&& notices.contains(Notice::Lobby) <==> in_session
            &&& in_session ==> notices.last() == Notice::Lobby
            &&& complete <==> completion(t) is Some
            &&& completion(t) matches Some(event) ==> notices.contains(
                Notice::Event { table, event },
            ) && (event matches Event::BoardComplete { result, .. } && Some(result) == t.result())
            &&& notices.len() == 1 + (if opening_lead {
                1int
            } else {
                0int
            }) + (if complete {
                2int
            } else {
                0int
            }) + (if in_session {
                1int
            } else {
                0int
            })
        }),
{
    let notices = told(t, table, action, via, opening_lead, in_session);
    let at: int = if opening_lead {
        2
    } else {
        1
    };
    if opening_lead {
        assert(notices[1] == Notice::Resync { table });
    }
    if let Some(event) = completion(t) {
        assert(notices[at] == Notice::Event { table, event });
        assert(notices[at + 1] == Notice::Resync { table });
    }
    if in_session {
        assert(notices[notices.len() - 1] == Notice::Lobby);
    }
}

/// A board's end is told with the length of the log, as every action is with the
/// length that it led to, and with the table's own result.
pub proof fn law_told_by_length(t: TableView, action: Action, via: Option<Via>)
    requires
        t.log.len() <= usize::MAX,
    ensures
        completion(t) matches Some(event) ==> (event matches Event::BoardComplete { seq, result } && seq
            == t.log.len() && Some(result) == t.result()),
        match action_event(t, action, via) {
            Event::BidMade { seq, .. } => action is Call && seq == t.log.len(),
            Event::CardPlayed { seq, .. } => action is Play && seq == t.log.len(),
            _ => false,
        },
{
}

} // verus!
