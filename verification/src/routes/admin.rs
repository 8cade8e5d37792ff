//! Service-to-service admin endpoints (session create/close).
//!
//! Called by the bridge-classroom API only — auth is the shared
//! `X-Service-Secret` header, which must equal `TICKET_SECRET` (the same
//! secret that signs join tickets; one shared secret keeps the Mac↔droplet
//! seam to a single credential).
//!
//! `POST /admin/sessions` body:
//! ```json
//! {
//!   "id": "…uuid…",
//!   "kind": "teacher_set" | "adhoc",
//!   "boards_pbn": "[Board \"1\"]…",
//!   "table_count": 2,
//!   "seat_policy": { "mode": "auto", "pattern": "one_per_seat", "seats": ["S"] },
//!   "owner_sub": "…user id…"
//! }
//! ```
//! Creates the session with rooms `"<id>-t1"…"<id>-tN"`, each starting on
//! the first board. Idempotent: re-POSTing a live id returns the existing
//! session untouched (a retried create must not evict seated players).
//!
//! `DELETE /admin/sessions/:id` unregisters the session and tells every
//! connection at its tables (`session_closed` event) to hang up.

use vstd::prelude::*;
use vstd::string::*;

use crate::boards::{read_set, set_of, ParsedBoard};
use crate::cards::Direction;
use crate::directory::{has_key, lookup, without_key};
use crate::events::{Event, Notice};
use crate::registry::{Registry, RegistryView};
use crate::seating::{joined, requested_policy, PolicyRequest, SeatPolicy};
use crate::sessions::{law_new_session, views, Session, SessionKind, SessionView};
use crate::text::{blank, is_blank, same};

verus! {

pub const MAX_TABLES: usize = 20;

/// A refusal: the HTTP status and what is wrong.
#[derive(Debug)]
pub struct AdminError {
    pub status: u16,
    pub error: String,
}

/// A refusal.
pub ghost struct AdminErrorView {
    pub status: u16,
    pub error: Seq<char>,
}

impl View for AdminError {
    type V = AdminErrorView;

    open spec fn view(&self) -> AdminErrorView {
        AdminErrorView { status: self.status, error: self.error@ }
    }
}

fn err(status: u16, msg: &str) -> (r: AdminError)
    ensures
        r@ == (AdminErrorView { status, error: msg@ }),
{
    AdminError { status, error: msg.to_owned() }
}

/// What a session is created from.
#[derive(Debug)]
pub struct CreateSessionRequest {
    pub id: String,
    pub kind: String,
    pub boards_pbn: String,
    pub table_count: usize,
    /// Nothing where the request gives no policy.
    pub seat_policy: Option<PolicyRequest>,
    pub owner_sub: String,
}

/// The kind of a session whose request gives none.
pub fn default_kind() -> (r: String)
    ensures
        r@ == "adhoc"@,
{
    "adhoc".to_owned()
}

/// The tables of a session whose request gives no number.
pub fn default_table_count() -> (r: usize)
    ensures
        r == 1,
{
    1
}

/// Whether the service secret is the right one.
pub open spec fn is_authorized(header: Option<&str>, secret: Seq<char>) -> bool {
    match header {
        Some(h) => h@ == secret,
        None => false,
    }
}

/// Whether the service secret is the right one. `header` is the request's
/// `X-Service-Secret`, if there is one and it is text.
pub fn authorized(header: Option<&str>, ticket_secret: &str) -> (r: bool)
    ensures
        r == is_authorized(header, ticket_secret@),
{
    match header {
        Some(h) => same(h, ticket_secret),
        None => false,
    }
}

/// The kind that a name names.
pub open spec fn kind_named(name: Seq<char>) -> Option<SessionKind> {
    if name == "teacher_set"@ {
        Some(SessionKind::TeacherSet)
    } else if name == "adhoc"@ {
        Some(SessionKind::Adhoc)
    } else {
        None
    }
}

/// Why a request is refused, if it is. `read` is what was made of its boards.
pub open spec fn create_refusal(
    header: Option<&str>,
    secret: Seq<char>,
    req: CreateSessionRequest,
    read: Result<Vec<ParsedBoard>, String>,
) -> Option<AdminErrorView> {
    if !is_authorized(header, secret) {
        Some(AdminErrorView { status: 401, error: "bad service secret"@ })
    } else if blank(req.id@) || blank(req.owner_sub@) {
        Some(AdminErrorView { status: 400, error: "id and owner_sub are required"@ })
    } else if req.id@ == "demo"@ {
        Some(AdminErrorView { status: 400, error: "'demo' is reserved"@ })
    } else if req.table_count > MAX_TABLES {
        Some(AdminErrorView { status: 400, error: "table_count must be 0..=20"@ })
    } else if kind_named(req.kind@) is None {
        Some(
            AdminErrorView { status: 400, error: "unknown session kind '"@ + req.kind@ + "'"@ },
        )
    } else {
        match requested_policy(req.seat_policy) {
            Err(e) => Some(AdminErrorView { status: 400, error: "seat_policy: "@ + e }),
            Ok(_) => if blank(req.boards_pbn@) {
                None
            } else {
                match set_of(read) {
                    Err(e) => Some(AdminErrorView { status: 400, error: e }),
                    Ok(_) => None,
                }
            },
        }
    }
}

/// The session that a request asks for. Without boards it starts idle.
pub open spec fn requested_session(
    req: CreateSessionRequest,
    read: Result<Vec<ParsedBoard>, String>,
) -> SessionView {
    SessionView::fresh(
        req.id@,
        kind_named(req.kind@)->0,
        req.owner_sub@,
        requested_policy(req.seat_policy)->Ok_0,
        if blank(req.boards_pbn@) {
            seq![]
        } else {
            set_of(read)->Ok_0
        },
        req.table_count as nat,
    )
}

/// The status of a reply: whether the session is new.
pub open spec fn create_status(created: bool) -> u16 {
    if created {
        201
    } else {
        200
    }
}

/// Only what is new counts as created; what was live is a success too.
pub proof fn law_create_status(created: bool)
    ensures
        create_status(created) == 201 <==> created,
        200 <= create_status(created) < 300,
{
}

/// What the creator of a session is told.
#[derive(Debug)]
pub struct CreateReply {
    /// 201 for a new session, 200 for one that was live.
    pub status: u16,
    /// Where the session stands among the sessions.
    pub session: usize,
    pub created: bool,
    /// The ids of the session's tables.
    pub tables: Vec<String>,
    pub boards: usize,
}

/// The ids of a session's tables.
fn table_ids(session: &Session) -> (r: Vec<String>)
    ensures
        r@.len() == session@.rooms.len(),
        forall|i: int| 0 <= i < r@.len() ==> (#[trigger] r@[i])@ == session@.rooms[i].id,
{
    let mut ids: Vec<String> = Vec::new();
    let mut i: usize = 0;
    while i < session.rooms.len()
        invariant
            i <= session.rooms.len(),
            ids@.len() == i,
            forall|j: int| 0 <= j < i ==> (#[trigger] ids@[j])@ == session@.rooms[j].id,
        decreases session.rooms.len() - i,
    {
        assert(session@.rooms[i as int] == session.rooms@[i as int]@);
        ids.push(session.rooms[i].id.clone());
        i = i + 1;
    }
    ids
}

/// Creates a session, unless one of that id is live: then nothing changes, and
/// the live one is reported. `read` is what was made of the request's boards.
pub fn create_session(
    registry: &mut Registry,
    header: Option<&str>,
    ticket_secret: &str,
    req: &CreateSessionRequest,
    read: &Result<Vec<ParsedBoard>, String>,
) -> (r: Result<CreateReply, AdminError>)
    requires
        old(registry).wf(),
        read is Ok ==> read->Ok_0@.len() <= u32::MAX,
    ensures
        final(registry).wf(),
        match r {
            Err(e) => create_refusal(header, ticket_secret@, *req, *read) == Some(e@)
                && final(registry)@ == old(registry)@,
            Ok(reply) => {
                &&& create_refusal(header, ticket_secret@, *req, *read) is None
                &&& reply.created == !has_key(old(registry)@.sessions, req.id@)
                &&& final(registry)@ == (if reply.created {
                    RegistryView {
                        sessions: old(registry)@.sessions.push(
                            (req.id@, requested_session(*req, *read)),
                        ),
                        ..old(registry)@
                    }
                } else {
                    old(registry)@
                })
                &&& reply.status == (if reply.created {
                    201u16
                } else {
                    200u16
                })
                &&& reply.status == create_status(reply.created)
                &&& reply.session < final(registry)@.sessions.len()
                &&& final(registry)@.sessions[reply.session as int].0 == req.id@
                &&& ({
                    let s = final(registry)@.sessions[reply.session as int].1;
                    &&& reply.boards == s.boards.len()
                    &&& reply.tables@.len() == s.rooms.len()
                    &&& forall|i: int|
                        0 <= i < reply.tables@.len() ==> (#[trigger] reply.tables@[i])@
                            == s.rooms[i].id
                })
            },
        },
{
    if !authorized(header, ticket_secret) {
        return Err(err(401, "bad service secret"));
    }
    if is_blank(req.id.as_str()) || is_blank(req.owner_sub.as_str()) {
        return Err(err(400, "id and owner_sub are required"));
    }
    if same(req.id.as_str(), "demo") {
        return Err(err(400, "'demo' is reserved"));
    }
    // 0 is allowed: a session can start with no tables (student-fill /
    // add_tables create them later).
    if req.table_count > MAX_TABLES {
        return Err(err(400, "table_count must be 0..=20"));
    }
    let kind = match SessionKind::parse(req.kind.as_str()) {
        Ok(k) => k,
        Err(e) => {
            return Err(AdminError { status: 400, error: e });
        },
    };
    let seat_policy = match SeatPolicy::from_value(req.seat_policy.as_ref()) {
        Ok(p) => p,
        Err(e) => {
            return Err(AdminError { status: 400, error: joined("seat_policy: ", e.as_str()) });
        },
    };
    // An empty board set is allowed: the session starts idle (no deal
    // loaded) and the teacher sends a source later via `load_boards`.
    let boards = if is_blank(req.boards_pbn.as_str()) {
        Vec::new()
    } else {
        match read_set(read) {
            Ok(b) => b,
            Err(e) => {
                return Err(AdminError { status: 400, error: e });
            },
        }
    };
    proof {
        if blank(req.boards_pbn@) {
            assert(views(boards@) =~= seq![]);
        } else {
            assert(views(boards@) =~= set_of(*read)->Ok_0);
        }
    }
    let session = Session::new(
        req.id.clone(),
        kind,
        req.owner_sub.clone(),
        seat_policy,
        boards,
        req.table_count,
    );
    assert(session@ == requested_session(*req, *read));
    let (i, created) = registry.insert_session(session);
    assert(registry@.sessions[i as int].1 == registry.sessions.entries@[i as int].1@);
    assert(registry@.sessions[i as int].1.wf());
    let live = &registry.sessions.entries[i].1;
    let tables = table_ids(live);
    let (_, _, boards) = live.deck_status();
    let status: u16 = if created {
        201
    } else {
        200
    };
    Ok(CreateReply { status, session: i, created, tables, boards })
}

/// What the first `n` tables of a closed session are told.
pub open spec fn closing(n: int) -> Seq<Notice>
    decreases n,
{
    if n <= 0 {
        seq![]
    } else {
        closing(n - 1).push(
            Notice::Event { table: (n - 1) as usize, event: Event::SessionClosed },
        )
    }
}

impl SessionView {
    /// The session has been closed: everyone at the tables is told, and the
    /// teachers.
    pub open spec fn closed(self) -> SessionView {
        SessionView {
            outbox: self.outbox + closing(self.rooms.len() as int),
            ..self
        }.post(Notice::Lobby)
    }
}

/// Tells everybody that the session is closed.
fn close(session: &mut Session)
    ensures
        final(session)@ == old(session)@.closed(),
{
    let n: usize = session.rooms.len();
    let mut i: usize = 0;
    assert(n == session@.rooms.len());
    proof {
        assert(session@ =~= (SessionView {
            outbox: old(session)@.outbox + closing(0),
            ..old(session)@
        }));
    }
    while i < n
        invariant
            i <= n,
            session@ == (SessionView {
                outbox: old(session)@.outbox + closing(i as int),
                ..old(session)@
            }),
        decreases n - i,
    {
        let ghost before = session@;
        session.post(Notice::Event { table: i, event: Event::SessionClosed });
        proof {
            assert(closing(i + 1) == closing(i as int).push(
                Notice::Event { table: i, event: Event::SessionClosed },
            ));
            assert(session@.outbox =~= old(session)@.outbox + closing(i + 1));
        }
        i = i + 1;
    }
    // Unblock teacher connections waiting on the session too.
    session.notify_lobby();
    assert(session@ =~= old(session)@.closed());
}

/// Unregisters a session and tells everybody at its tables. Closing an
/// unknown/already-closed session succeeds: there is nothing to tell then.
pub fn delete_session(
    registry: &mut Registry,
    header: Option<&str>,
    ticket_secret: &str,
    id: &str,
) -> (r: Result<Option<Session>, AdminError>)
    requires
        old(registry).wf(),
    ensures
        final(registry).wf(),
        match r {
            Err(e) => !is_authorized(header, ticket_secret@) && e@ == (AdminErrorView {
                status: 401,
                error: "bad service secret"@,
            }) && final(registry)@ == old(registry)@,
            Ok(gone) => {
                &&& is_authorized(header, ticket_secret@)
                &&& final(registry)@ == (RegistryView {
                    sessions: without_key(old(registry)@.sessions, id@),
                    ..old(registry)@
                })
                &&& match gone {
                    Some(s) => has_key(old(registry)@.sessions, id@) && s@ == lookup(
                        old(registry)@.sessions,
                        id@,
                    )->0.closed(),
                    None => !has_key(old(registry)@.sessions, id@),
                }
            },
        },
{
    if !authorized(header, ticket_secret) {
        return Err(err(401, "bad service secret"));
    }
    proof {
        crate::directory::lemma_position(registry@.sessions, id@);
    }
    match registry.remove_session(id) {
        Some(session) => {
            let mut session = session;
            close(&mut session);
            Ok(Some(session))
        },
        None => Ok(None),
    }
}

/// A second request for a live session changes nothing, whatever it asks for;
/// and after a session is deleted, its id is free again.
pub proof fn law_sessions_come_and_go(r: RegistryView, id: Seq<char>, s: SessionView)
    requires
        r.wf(),
        !has_key(r.sessions, id),
    ensures
        has_key(r.sessions.push((id, s)), id),
        lookup(r.sessions.push((id, s)), id) == Some(s),
        without_key(r.sessions.push((id, s)), id) == r.sessions,
{
    let t = r.sessions.push((id, s));
    crate::directory::lemma_position(r.sessions, id);
    crate::directory::lemma_position_is(t, id, r.sessions.len() as int);
    assert(t.remove(r.sessions.len() as int) =~= r.sessions);
}

/// A request is let in exactly if its header is there and holds the secret.
pub proof fn law_secret_is_asked(header: &str, secret: Seq<char>)
    ensures
        is_authorized(Some(header), secret) <==> header@ == secret,
        !is_authorized(None, secret),
{
}

/// Who does not hold the secret is told so, whatever they ask for; who does is
/// never told that. A request that is in order is not refused.
pub proof fn law_refusals(
    header: Option<&str>,
    secret: Seq<char>,
    req: CreateSessionRequest,
    read: Result<Vec<ParsedBoard>, String>,
)
    ensures
        ({
            let refusal = create_refusal(header, secret, req, read);
            let held = header is Some && header->0@ == secret;
            &&& !held <==> (refusal matches Some(e) && e.status == 401)
            &&& held && refusal is Some ==> refusal->0.status == 400
            &&& refusal is None <==> {
                &&& held
                &&& !blank(req.id@) && !blank(req.owner_sub@) && req.id@ != "demo"@
                &&& req.table_count <= 20
                &&& req.kind@ == "teacher_set"@ || req.kind@ == "adhoc"@
                &&& requested_policy(req.seat_policy) is Ok
                &&& blank(req.boards_pbn@) || set_of(read) is Ok
            }
            &&& held && (blank(req.id@) || blank(req.owner_sub@)) ==> refusal->0.error
                == "id and owner_sub are required"@
            &&& held && !blank(req.id@) && !blank(req.owner_sub@) && req.id@ == "demo"@
                ==> refusal->0.error == "'demo' is reserved"@
            &&& held && !blank(req.id@) && !blank(req.owner_sub@) && req.id@ != "demo"@
                && req.table_count > 20 ==> refusal->0.error == "table_count must be 0..=20"@
        }),
{
    reveal_strlit("teacher_set");
    reveal_strlit("adhoc");
    assert("teacher_set"@.len() == 11 && "adhoc"@.len() == 5);
}

/// The two kinds go by their names, and no other name names a kind.
pub proof fn law_kinds(name: Seq<char>)
    ensures
        kind_named(name) == Some(SessionKind::TeacherSet) <==> name == "teacher_set"@,
        kind_named(name) == Some(SessionKind::Adhoc) <==> name == "adhoc"@,
{
    reveal_strlit("teacher_set");
    reveal_strlit("adhoc");
    assert("teacher_set"@.len() == 11 && "adhoc"@.len() == 5);
}

/// The session that is created is the one that was asked for: its id, its owner,
/// its kind, as many tables, and the boards, in order, or none.
pub proof fn law_session_as_requested(
    req: CreateSessionRequest,
    read: Result<Vec<ParsedBoard>, String>,
    i: int,
)
    requires
        kind_named(req.kind@) is Some,
        set_of(read) is Ok ==> set_of(read)->Ok_0.len() <= usize::MAX,
        0 <= i < req.table_count,
        !blank(req.boards_pbn@) ==> set_of(read) is Ok,
    ensures
        ({
            let s = requested_session(req, read);
            &&& s.id == req.id@ && s.owner_sub == req.owner_sub@
            &&& s.kind == SessionKind::TeacherSet <==> req.kind@ == "teacher_set"@
            &&& requested_policy(req.seat_policy) matches Ok(policy) ==> s.policy == policy
            &&& s.rooms.len() == req.table_count
            &&& blank(req.boards_pbn@) ==> s.boards.len() == 0
            &&& !blank(req.boards_pbn@) ==> s.boards == set_of(read)->Ok_0
            &&& s.boards.len() > 0 ==> s.rooms[i].state.table.board == s.boards[0]
            &&& s.rooms[i].state.table.log.len() == 0
        }),
{
    law_kinds(req.kind@);
    law_new_session(
        req.id@,
        kind_named(req.kind@)->0,
        req.owner_sub@,
        requested_policy(req.seat_policy)->Ok_0,
        requested_session(req, read).boards,
        req.table_count as nat,
        i,
        Direction::North,
    );
}

/// When a session is closed every table is told, once and in order, and the
/// teachers last; nothing else changes.
pub proof fn law_closing(s: SessionView, i: int)
    requires
        0 <= i < s.rooms.len() <= usize::MAX,
    ensures
        ({
            let after = s.closed();
            let n = s.outbox.len() as int;
            &&& after.outbox.len() == n + s.rooms.len() + 1
            &&& after.outbox.subrange(0, n) == s.outbox
            &&& after.outbox[n + i] == (Notice::Event {
                table: i as usize,
                event: Event::SessionClosed,
            })
            &&& after.outbox.last() == Notice::Lobby
            &&& after.rooms == s.rooms && after.connections == s.connections
        }),
{
    lemma_closing(s.rooms.len() as int, i);
    let after = s.closed();
    let n = s.outbox.len() as int;
    assert(after.outbox.subrange(0, n) =~= s.outbox);
}

proof fn lemma_closing(n: int, i: int)
    requires
        0 <= i < n,
    ensures
        closing(n).len() == n,
        closing(n)[i] == (Notice::Event { table: i as usize, event: Event::SessionClosed }),
    decreases n,
{
    if i < n - 1 {
        lemma_closing(n - 1, i);
    } else if n > 1 {
        lemma_closing(n - 1, 0);
    } else {
        assert(closing(0).len() == 0);
    }
}

} // verus!
