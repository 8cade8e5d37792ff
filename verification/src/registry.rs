//! The tables that this process holds: the live sessions and the demo room.

use vstd::prelude::*;

use crate::directory::{has_key, law_directory, lookup, position, unique_keys, without_key, Directory};
use crate::rooms::{demo_board_view, demo_room, Room, RoomView, TakeoverGrace};
use crate::sessions::{Session, SessionView};

verus! {

/// The live sessions by id, and the standing demo room.
#[derive(Debug)]
pub struct Registry {
    pub demo: Option<Room>,
    pub sessions: Directory<Session>,
}

/// What a registry holds.
#[verifier::ext_equal]
pub ghost struct RegistryView {
    pub demo: Option<RoomView>,
    pub sessions: Seq<(Seq<char>, SessionView)>,
}

pub open spec fn room_view(room: Option<Room>) -> Option<RoomView> {
    match room {
        Some(room) => Some(room@),
        None => None,
    }
}

impl View for Registry {
    type V = RegistryView;

    open spec fn view(&self) -> RegistryView {
        RegistryView { demo: room_view(self.demo), sessions: self.sessions@ }
    }
}

impl RegistryView {
    /// Every session is in order and kept under its own id, and no id is kept
    /// twice; the demo table's log is legal.
    pub open spec fn wf(self) -> bool {
        &&& unique_keys(self.sessions)
        &&& forall|i: int|
            0 <= i < self.sessions.len() ==> (#[trigger] self.sessions[i]).1.wf()
                && self.sessions[i].0 == self.sessions[i].1.id
        &&& self.demo matches Some(room) ==> room.state.wf()
    }
}

impl Registry {
    pub open spec fn wf(&self) -> bool {
        self@.wf()
    }

    pub fn new() -> (r: Registry)
        ensures
            r.wf(),
            r@.demo is None,
            r@.sessions == Seq::<(Seq<char>, SessionView)>::empty(),
    {
        Registry { demo: None, sessions: Directory::new() }
    }

    /// Where a live session stands among the sessions, if it is there.
    pub fn get_session(&self, id: &str) -> (r: Option<usize>)
        ensures
            match r {
                Some(i) => has_key(self@.sessions, id@) && i == position(self@.sessions, id@) && i
                    < self@.sessions.len(),
                None => !has_key(self@.sessions, id@),
            },
    {
        let i: usize = self.sessions.find(id);
        if i < self.sessions.len() {
            Some(i)
        } else {
            None
        }
    }

    /// Register a session. If the id is already live, the existing session
    /// is kept (idempotent create: a retried request must not nuke a session
    /// with people at its tables). Returns where the session of that id stands,
    /// and whether it is new.
    pub fn insert_session(&mut self, session: Session) -> (r: (usize, bool))
        requires
            old(self).wf(),
            session.wf(),
        ensures
            final(self).wf(),
            r.1 == !has_key(old(self)@.sessions, session@.id),
            final(self)@ == (if r.1 {
                RegistryView {
                    sessions: old(self)@.sessions.push((session@.id, session@)),
                    ..old(self)@
                }
            } else {
                old(self)@
            }),
            r.0 < final(self)@.sessions.len(),
            final(self)@.sessions[r.0 as int].0 == session@.id,
    {
        let i: usize = self.sessions.find(session.id.as_str());
        proof {
            crate::directory::lemma_position(self@.sessions, session@.id);
        }
        if i < self.sessions.len() {
            return (i, false);
        }
        let ghost added = session@;
        let id = session.id.clone();
        proof {
            law_directory(self@.sessions, added.id, added, added.id);
        }
        self.sessions.insert(id.as_str(), session);
        proof {
            let now = self@.sessions;
            assert(now =~= old(self)@.sessions.push((added.id, added)));
            assert forall|k: int| 0 <= k < now.len() implies (#[trigger] now[k]).1.wf()
                && now[k].0 == now[k].1.id by {
                if k < old(self)@.sessions.len() {
                    assert(now[k] == old(self)@.sessions[k]);
                }
            }
        }
        (i, true)
    }

    /// Unregisters a session, and gives it back. `None` if it is not there.
    pub fn remove_session(&mut self, id: &str) -> (r: Option<Session>)
        requires
            old(self).wf(),
        ensures
            final(self).wf(),
            final(self)@ == (RegistryView {
                sessions: without_key(old(self)@.sessions, id@),
                ..old(self)@
            }),
            match r {
                Some(s) => lookup(old(self)@.sessions, id@) == Some(s@) && s.wf(),
                None => !has_key(old(self)@.sessions, id@),
            },
            !has_key(final(self)@.sessions, id@),
    {
        let i: usize = self.sessions.find(id);
        let ghost before = self@;
        proof {
            lemma_without_session(before, id@);
        }
        if i >= self.sessions.len() {
            return None;
        }
        assert(before.sessions[i as int].1 == self.sessions.entries@[i as int].1@);
        let (_, session) = self.sessions.entries.remove(i);
        assert(self@.sessions =~= before.sessions.remove(i as int));
        Some(session)
    }

    /// Makes sure that the demo room is there, creating it on first use.
    pub fn demo_room(&mut self)
        requires
            old(self).wf(),
        ensures
            final(self).wf(),
            final(self)@ == (RegistryView {
                demo: match old(self)@.demo {
                    Some(room) => Some(room),
                    None => Some(
                        RoomView::fresh("demo"@, demo_board_view(), TakeoverGrace::spec_standard()),
                    ),
                },
                ..old(self)@
            }),
    {
        if self.demo.is_none() {
            self.demo = Some(demo_room());
        }
    }
}

/// A registry without one of its sessions is in order.
proof fn lemma_without_session(r: RegistryView, id: Seq<char>)
    requires
        r.wf(),
    ensures
        ({
            let rest = without_key(r.sessions, id);
            let i = position(r.sessions, id);
            &&& (RegistryView { sessions: rest, ..r }).wf()
            &&& !has_key(rest, id)
            &&& has_key(r.sessions, id) ==> 0 <= i < r.sessions.len() && rest
                == r.sessions.remove(i) && lookup(r.sessions, id) == Some(r.sessions[i].1)
                && r.sessions[i].1.wf()
            &&& !has_key(r.sessions, id) ==> rest == r.sessions && i == r.sessions.len()
        }),
{
    crate::directory::lemma_position(r.sessions, id);
    let i = position(r.sessions, id);
    let rest = without_key(r.sessions, id);
    if has_key(r.sessions, id) {
        law_directory(r.sessions, id, r.sessions[i].1, id);
        assert forall|k: int| 0 <= k < rest.len() implies (#[trigger] rest[k]).1.wf()
            && rest[k].0 == rest[k].1.id by {
            let b = if k < i {
                k
            } else {
                k + 1
            };
            assert(rest[k] == r.sessions[b]);
        }
        assert(lookup(rest, id) is None);
        assert(r.sessions[i].1.wf());
    }
}

/// Creating a session under an id that is live changes nothing: whoever sits at
/// its tables stays.
pub proof fn law_create_is_idempotent(r: RegistryView, id: Seq<char>)
    requires
        r.wf(),
        has_key(r.sessions, id),
    ensures
        lookup(r.sessions, id) matches Some(s) && s.id == id && s.wf(),
{
    crate::directory::lemma_position(r.sessions, id);
    let p = position(r.sessions, id);
    assert(r.sessions[p].1.wf());
}

} // verus!
