//! The bookkeeping of an Agent Client Protocol connection: which session serves which
//! thread, the turn each session is in, the requests that wait on the user, and the
//! commands the user allowed for the rest of a session.
//!
//! The connection keeps the responders of parked requests itself, keyed by request
//! id; this state decides who is answered, and how.

use vstd::prelude::*;

use crate::mapping::{
    announced_call, call_slot, permission_request, put_call, spec_apply, spec_content_output,
    spec_end, spec_open, spec_permission_request, spec_reset, spec_terminal_label, terminal_label,
    SpecCallState, SpecTurn, Turn,
};
use crate::model::{
    events_view, options_view, AssistantEvent, PermissionOption, PermissionOptionId, PermissionOptionKind,
    PermissionRequest, PermissionRequestId, SpecEvent, SpecPermissionOption,
    SpecPermissionRequest, ThreadId, ToolCallId,
};
use crate::protocol::{AgentPermissionRequest, AgentToolCall, SessionUpdate, StopReason, TerminalRequest};
use crate::seqs::{first_match, lemma_first_match, lemma_first_match_is};
use crate::text::{decimal, lemma_numbered_distinct, push_decimal, text_eq};

verus! {

/// The id of the permission request numbered `n`.
pub open spec fn permission_id(n: nat) -> Seq<char> {
    "permission-"@ + decimal(n)
}

/// A session and a command line the user allowed in it.
#[derive(Debug)]
pub struct Approval {
    pub session: String,
    pub label: String,
}

/// All state of a connection that is not a responder, a channel or a process.
#[derive(Debug)]
pub struct Shared {
    sessions: Vec<(ThreadId, String)>,
    turns: Vec<Turn>,
    parked: Vec<Parked>,
    next_permission: u64,
    approved: Vec<Approval>,
}

/// What a parked request was about.
#[derive(Debug)]
pub enum ParkedKind {
    /// The agent asked to allow a tool call.
    Permission,
    /// The agent asked to run a command, which starts once the user allows it.
    Terminal { label: String, allow_once: PermissionOptionId, allow_session: PermissionOptionId },
}

/// A request from the agent that is waiting on the user.
#[derive(Debug)]
pub struct Parked {
    pub request_id: PermissionRequestId,
    pub session: String,
    pub kind: ParkedKind,
}

pub enum SpecParkedKind {
    Permission,
    Terminal { label: Seq<char>, allow_once: Seq<char>, allow_session: Seq<char> },
}

pub struct SpecParked {
    pub request_id: Seq<char>,
    pub session: Seq<char>,
    pub kind: SpecParkedKind,
}

impl View for Parked {
    type V = SpecParked;

    open spec fn view(&self) -> SpecParked {
        SpecParked {
            request_id: self.request_id@,
            session: self.session@,
            kind: match self.kind {
                ParkedKind::Permission => SpecParkedKind::Permission,
                ParkedKind::Terminal { label, allow_once, allow_session } => SpecParkedKind::Terminal {
                    label: label@,
                    allow_once: allow_once@,
                    allow_session: allow_session@,
                },
            },
        }
    }
}

pub open spec fn parked_view(parked: Seq<Parked>) -> Seq<SpecParked> {
    parked.map_values(|p: Parked| p@)
}

pub struct SpecShared {
    /// Thread id and session id pairs; the first pair of a thread counts.
    pub sessions: Seq<(Seq<char>, Seq<char>)>,
    pub turns: Seq<SpecTurn>,
    pub parked: Seq<SpecParked>,
    pub next_permission: nat,
    /// The session and command line pairs the user allowed.
    pub approved: Set<(Seq<char>, Seq<char>)>,
}

impl View for Shared {
    type V = SpecShared;

    closed spec fn view(&self) -> SpecShared {
        SpecShared {
            sessions: self.sessions@.map_values(|p: (ThreadId, String)| (p.0@, p.1@)),
            turns: self.turns@.map_values(|t: Turn| t@),
            parked: parked_view(self.parked@),
            next_permission: self.next_permission as nat,
            approved: Set::new(
                |p: (Seq<char>, Seq<char>)|
                    exists|i: int|
                        0 <= i < self.approved@.len() && #[trigger] self.approved@[i].session@
                            == p.0 && self.approved@[i].label@ == p.1,
            ),
        }
    }
}

/// The session bound to a thread, if any.
pub open spec fn session_of(sessions: Seq<(Seq<char>, Seq<char>)>, thread_id: Seq<char>) -> Option<
    Seq<char>,
> {
    let i = first_match(sessions, |p: (Seq<char>, Seq<char>)| p.0 == thread_id);
    if i < sessions.len() {
        Some(sessions[i].1)
    } else {
        None
    }
}

/// The state after a permission id is minted, and that id: the counter's, which then
/// moves on (wrapping).
pub open spec fn spec_next_permission_id(s: SpecShared) -> (SpecShared, Seq<char>) {
    (
        SpecShared {
            next_permission: if s.next_permission < u64::MAX {
                s.next_permission + 1
            } else {
                0
            },
            ..s
        },
        permission_id(s.next_permission),
    )
}

/// The state after `n` permission ids are minted, and those ids, in order.
pub open spec fn minted_permission_ids(s: SpecShared, n: nat) -> (SpecShared, Seq<Seq<char>>)
    decreases n,
{
    if n == 0 {
        (s, Seq::empty())
    } else {
        let (s1, ids) = minted_permission_ids(s, (n - 1) as nat);
        let (s2, id) = spec_next_permission_id(s1);
        (s2, ids.push(id))
    }
}

impl Shared {
    pub fn new() -> (res: Self)
        ensures
            res@.sessions.len() == 0,
            res@.turns.len() == 0,
            res@.parked.len() == 0,
            res@.next_permission == 0,
            res@.approved == Set::<(Seq<char>, Seq<char>)>::empty(),
    {
        let res = Shared {
            sessions: Vec::new(),
            turns: Vec::new(),
            parked: Vec::new(),
            next_permission: 0,
            approved: Vec::new(),
        };
        assert(res@.approved =~= Set::<(Seq<char>, Seq<char>)>::empty());
        res
    }

    /// Matched on the whole command line: allowing `cargo test` allows nothing else.
    pub fn is_approved(&self, session: &str, label: &str) -> (res: bool)
        ensures
            res == self@.approved.contains((session@, label@)),
    {
        let mut i: usize = 0;
        while i < self.approved.len()
            invariant
                0 <= i <= self.approved.len(),
                forall|j: int|
                    0 <= j < i ==> !(#[trigger] self.approved@[j].session@ == session@
                        && self.approved@[j].label@ == label@),
            decreases self.approved.len() - i,
        {
            let approval = &self.approved[i];
            if text_eq(approval.session.as_str(), session) && text_eq(approval.label.as_str(), label) {
                assert(self@.approved.contains((session@, label@)));
                return true;
            }
            i = i + 1;
        }
        false
    }

    /// Allows a command line for the rest of a session.
    pub fn approve_for_session(&mut self, session: &str, label: String)
        ensures
            final(self)@ == (SpecShared {
                approved: old(self)@.approved.insert((session@, label@)),
                ..old(self)@
            }),
    {
        let ghost old_view = self@;
        let ghost l = label@;
        self.approved.push(Approval { session: session.to_owned(), label });
        assert(self@.approved =~= old_view.approved.insert((session@, l))) by {
            assert forall|p: (Seq<char>, Seq<char>)| #[trigger] self@.approved.contains(p)
                implies old_view.approved.insert((session@, l)).contains(p) by {
                let i = choose|i: int|
                    0 <= i < self.approved@.len() && #[trigger] self.approved@[i].session@ == p.0
                        && self.approved@[i].label@ == p.1;
                if i < self.approved@.len() - 1 {
                    assert(old(self).approved@[i] == self.approved@[i]);
                }
            }
            assert forall|p: (Seq<char>, Seq<char>)|
                #[trigger] old_view.approved.insert((session@, l)).contains(p)
                implies self@.approved.contains(p) by {
                if p != (session@, l) {
                    let i = choose|i: int|
                        0 <= i < old(self).approved@.len() && #[trigger] old(self).approved@[i].session@ == p.0
                            && old(self).approved@[i].label@ == p.1;
                    assert(self.approved@[i] == old(self).approved@[i]);
                } else {
                    assert(self.approved@[self.approved@.len() - 1].session@ == p.0);
                }
            }
        }
        assert(self@.turns =~= old_view.turns);
    }
}

/// The index of the turn of a session, or `turns.len()`.
pub open spec fn turn_slot(turns: Seq<SpecTurn>, session: Seq<char>) -> int {
    first_match(turns, |t: SpecTurn| t.session == session)
}

pub open spec fn fresh_turn(session: Seq<char>) -> SpecTurn {
    SpecTurn { session, index: 0, message_id: None, calls: Seq::empty() }
}

/// The turn a session is in; a session seen for the first time starts a fresh one.
pub open spec fn turn_of(turns: Seq<SpecTurn>, session: Seq<char>) -> SpecTurn {
    let i = turn_slot(turns, session);
    if i < turns.len() {
        turns[i]
    } else {
        fresh_turn(session)
    }
}

/// The turns with the session's turn replaced, or added.
pub open spec fn put_turn(turns: Seq<SpecTurn>, session: Seq<char>, t: SpecTurn) -> Seq<SpecTurn> {
    let i = turn_slot(turns, session);
    if i < turns.len() {
        turns.update(i, t)
    } else {
        turns.push(t)
    }
}

impl Shared {
    /// The session bound to a thread, if any.
    pub fn session(&self, thread_id: &ThreadId) -> (res: Option<String>)
        ensures
            match res {
                Some(s) => session_of(self@.sessions, thread_id@) == Some(s@),
                None => session_of(self@.sessions, thread_id@).is_none(),
            },
    {
        let ghost v = self@.sessions;
        let mut i: usize = 0;
        while i < self.sessions.len()
            invariant
                0 <= i <= self.sessions.len(),
                v == self@.sessions,
                forall|j: int| 0 <= j < i ==> (#[trigger] v[j]).0 != thread_id@,
            decreases self.sessions.len() - i,
        {
            assert(v[i as int] == (self.sessions@[i as int].0@, self.sessions@[i as int].1@));
            if self.sessions[i].0.0 == thread_id.0 {
                proof {
                    lemma_first_match_is(v, |p: (Seq<char>, Seq<char>)| p.0 == thread_id@, i as int);
                }
                return Some(self.sessions[i].1.clone());
            }
            i = i + 1;
        }
        proof {
            lemma_first_match_is(v, |p: (Seq<char>, Seq<char>)| p.0 == thread_id@, i as int);
        }
        None
    }

    /// Binds a thread to a session, replacing any earlier binding.
    pub fn bind_session(&mut self, thread_id: ThreadId, session: String)
        ensures
            session_of(final(self)@.sessions, thread_id@) == Some(session@),
            forall|other: Seq<char>|
                other != thread_id@ ==> session_of(final(self)@.sessions, other) == session_of(
                    old(self)@.sessions,
                    other,
                ),
            final(self)@.turns == old(self)@.turns,
            final(self)@.parked == old(self)@.parked,
            final(self)@.next_permission == old(self)@.next_permission,
            final(self)@.approved == old(self)@.approved,
    {
        let ghost old_view = self@;
        let ghost t = thread_id@;
        let ghost sv = session@;
        self.sessions.insert(0, (thread_id, session));
        let ghost v = self@.sessions;
        assert(v =~= seq![(t, sv)] + old_view.sessions);
        proof {
            lemma_first_match_is(v, |p: (Seq<char>, Seq<char>)| p.0 == t, 0);
            assert forall|other: Seq<char>| other != t implies session_of(v, other) == session_of(
                old_view.sessions,
                other,
            ) by {
                let p = |q: (Seq<char>, Seq<char>)| q.0 == other;
                lemma_first_match(old_view.sessions, p);
                let k = first_match(old_view.sessions, p);
                assert forall|j: int| 0 <= j < k + 1 implies !p(#[trigger] v[j]) by {
                    if j > 0 {
                        assert(v[j] == old_view.sessions[j - 1]);
                    }
                }
                if k < old_view.sessions.len() {
                    assert(v[k + 1] == old_view.sessions[k]);
                }
                lemma_first_match_is(v, p, k + 1);
            }
        }
        assert(self@.turns =~= old_view.turns);
        assert(self@.parked =~= old_view.parked);
        assert(self@.approved =~= old_view.approved);
    }

    /// Mints the next permission request id.
    pub fn next_permission_id(&mut self) -> (res: PermissionRequestId)
        ensures
            (final(self)@, res@) == spec_next_permission_id(old(self)@),
    {
        let ghost old_view = self@;
        let mut id = "permission-".to_owned();
        push_decimal(&mut id, self.next_permission);
        self.next_permission = self.next_permission.wrapping_add(1);
        assert(self@.sessions =~= old_view.sessions);
        assert(self@.turns =~= old_view.turns);
        assert(self@.parked =~= old_view.parked);
        assert(self@.approved =~= old_view.approved);
        PermissionRequestId(id)
    }

    /// The index of the session's turn, starting a fresh turn for a new session.
    fn turn_index(&mut self, session: &str) -> (res: usize)
        ensures
            res < final(self)@.turns.len(),
            res == turn_slot(final(self)@.turns, session@),
            final(self)@.turns[res as int] == turn_of(old(self)@.turns, session@),
            final(self)@.turns == put_turn(old(self)@.turns, session@, turn_of(old(self)@.turns, session@)),
            final(self)@.sessions == old(self)@.sessions,
            final(self)@.parked == old(self)@.parked,
            final(self)@.next_permission == old(self)@.next_permission,
            final(self)@.approved == old(self)@.approved,
    {
        let ghost old_view = self@;
        let ghost v = self@.turns;
        let ghost p = |t: SpecTurn| t.session == session@;
        let mut i: usize = 0;
        while i < self.turns.len()
            invariant
                0 <= i <= self.turns.len(),
                v == self@.turns,
                old_view == self@,
                forall|j: int| 0 <= j < i ==> (#[trigger] v[j]).session != session@,
            decreases self.turns.len() - i,
        {
            assert(v[i as int] == self.turns@[i as int]@);
            if text_eq(self.turns[i].session().as_str(), session) {
                proof {
                    lemma_first_match_is(v, |t: SpecTurn| t.session == session@, i as int);
                    assert(v.update(i as int, v[i as int]) =~= v);
                }
                return i;
            }
            i = i + 1;
        }
        proof {
            lemma_first_match_is(v, |t: SpecTurn| t.session == session@, i as int);
        }
        self.turns.push(Turn::new(session));
        proof {
            let w = self@.turns;
            assert(w =~= v.push(fresh_turn(session@)));
            assert forall|j: int| 0 <= j < i implies !(#[trigger] w[j].session == session@) by {
                assert(w[j] == v[j]);
            }
            lemma_first_match_is(w, |t: SpecTurn| t.session == session@, i as int);
        }
        assert(self@.sessions =~= old_view.sessions);
        assert(self@.parked =~= old_view.parked);
        assert(self@.approved =~= old_view.approved);
        i
    }

    /// Maps one update of a session onto the events of its thread.
    pub fn dispatch(&mut self, session: &str, update: SessionUpdate) -> (events: Vec<AssistantEvent>)
        ensures
            events_view(events@) == spec_apply(turn_of(old(self)@.turns, session@), update).1,
            final(self)@.turns == put_turn(
                old(self)@.turns,
                session@,
                spec_apply(turn_of(old(self)@.turns, session@), update).0,
            ),
            final(self)@.sessions == old(self)@.sessions,
            final(self)@.parked == old(self)@.parked,
            final(self)@.next_permission == old(self)@.next_permission,
            final(self)@.approved == old(self)@.approved,
    {
        let ghost old_view = self@;
        let i = self.turn_index(session);
        let ghost mid = self@;
        let events = self.turns[i].apply(update);
        proof {
            lemma_first_match(old_view.turns, |t: SpecTurn| t.session == session@);
            let k = turn_slot(old_view.turns, session@);
            let next = spec_apply(turn_of(old_view.turns, session@), update).0;
            assert(self@.turns =~= mid.turns.update(i as int, next));
            if k < old_view.turns.len() {
                assert(mid.turns =~= old_view.turns);
            } else {
                assert(mid.turns =~= old_view.turns.push(fresh_turn(session@)));
                assert(i == old_view.turns.len()) by {
                    lemma_first_match(mid.turns, |t: SpecTurn| t.session == session@);
                    if i < old_view.turns.len() {
                        assert(mid.turns[i as int] == old_view.turns[i as int]);
                    }
                }
            }
            assert(self@.turns =~= put_turn(
                old_view.turns,
                session@,
                spec_apply(turn_of(old_view.turns, session@), update).0,
            ));
        }
        assert(self@.sessions =~= mid.sessions);
        assert(self@.parked =~= mid.parked);
        assert(self@.approved =~= mid.approved);
        events
    }
}

/// The parked requests of a session, in the order they were parked.
pub open spec fn of_session(parked: Seq<SpecParked>, session: Seq<char>) -> Seq<SpecParked>
    decreases parked.len(),
{
    if parked.len() == 0 {
        parked
    } else if parked.last().session == session {
        of_session(parked.drop_last(), session).push(parked.last())
    } else {
        of_session(parked.drop_last(), session)
    }
}

/// The parked requests of every other session, in the order they were parked.
pub open spec fn other_sessions(parked: Seq<SpecParked>, session: Seq<char>) -> Seq<SpecParked>
    decreases parked.len(),
{
    if parked.len() == 0 {
        parked
    } else if parked.last().session != session {
        other_sessions(parked.drop_last(), session).push(parked.last())
    } else {
        other_sessions(parked.drop_last(), session)
    }
}

/// One `PermissionResolved` per request.
pub open spec fn resolved_events(parked: Seq<SpecParked>) -> Seq<SpecEvent> {
    parked.map_values(|p: SpecParked| SpecEvent::PermissionResolved { request_id: p.request_id })
}

impl Shared {
    /// Nobody can answer a request once its turn is over, and an unanswered request keeps
    /// the agent waiting, so the end of a turn cancels whatever the session has parked.
    /// Gives the cancelled requests, for the connection to answer, and their events.
    pub fn cancel_parked(&mut self, session: &str) -> (res: (Vec<Parked>, Vec<AssistantEvent>))
        ensures
            parked_view(res.0@) == of_session(old(self)@.parked, session@),
            events_view(res.1@) == resolved_events(of_session(old(self)@.parked, session@)),
            final(self)@ == (SpecShared {
                parked: other_sessions(old(self)@.parked, session@),
                ..old(self)@
            }),
    {
        let ghost old_view = self@;
        let ghost all = self@.parked;
        let count = self.parked.len();
        assert(all.len() == count);
        let mut pending: Vec<Parked> = Vec::new();
        std::mem::swap(&mut pending, &mut self.parked);
        let mut cancelled: Vec<Parked> = Vec::new();
        let mut events: Vec<AssistantEvent> = Vec::new();
        let mut k: usize = 0;
        assert(all.take(0) =~= Seq::<SpecParked>::empty());
        while pending.len() > 0
            invariant
                0 <= k <= all.len(),
                all.len() <= usize::MAX,
                parked_view(pending@) == all.skip(k as int),
                parked_view(cancelled@) == of_session(all.take(k as int), session@),
                parked_view(self.parked@) == other_sessions(all.take(k as int), session@),
                events_view(events@) == resolved_events(of_session(all.take(k as int), session@)),
                self.sessions == old(self).sessions,
                self.turns == old(self).turns,
                self.next_permission == old(self).next_permission,
                self.approved == old(self).approved,
            decreases pending.len(),
        {
            let ghost before = pending@;
            assert(parked_view(before).len() == before.len());
            assert(k < all.len());
            assert(parked_view(before)[0] == all[k as int]);
            let p = pending.remove(0);
            assert(parked_view(before)[0] == p@);
            assert(all.take(k + 1).drop_last() =~= all.take(k as int));
            assert(all.take(k + 1).last() == p@);
            assert forall|j: int| 0 <= j < pending@.len() implies #[trigger] parked_view(pending@)[j]
                == all.skip(k + 1)[j] by {
                assert(pending@[j] == before[j + 1]);
                assert(parked_view(before)[j + 1] == all[k + 1 + j]);
            }
            assert(parked_view(pending@) =~= all.skip(k + 1));
            if text_eq(p.session.as_str(), session) {
                let ghost c = cancelled@;
                let ghost e = events@;
                events.push(AssistantEvent::PermissionResolved { request_id: p.request_id.clone() });
                cancelled.push(p);
                assert(parked_view(cancelled@) =~= parked_view(c).push(cancelled@.last()@));
                assert(events_view(events@) =~= events_view(e).push(
                    SpecEvent::PermissionResolved { request_id: cancelled@.last()@.request_id },
                ));
                assert(resolved_events(of_session(all.take(k + 1), session@)) =~= resolved_events(
                    of_session(all.take(k as int), session@),
                ).push(SpecEvent::PermissionResolved { request_id: cancelled@.last()@.request_id }));
            } else {
                let ghost kept = self.parked@;
                self.parked.push(p);
                assert(parked_view(self.parked@) =~= parked_view(kept).push(self.parked@.last()@));
            }
            k = k + 1;
        }
        assert(all.take(k as int) =~= all);
        assert(self@.sessions =~= old_view.sessions);
        assert(self@.turns =~= old_view.turns);
        assert(self@.approved =~= old_view.approved);
        (cancelled, events)
    }

    /// Ends a session's turn for a stop reason: its parked requests are cancelled, then
    /// the turn reports its end.
    pub fn end_turn(&mut self, session: &str, stop_reason: StopReason) -> (res: (
        Vec<Parked>,
        Vec<AssistantEvent>,
    ))
        ensures
            parked_view(res.0@) == of_session(old(self)@.parked, session@),
            events_view(res.1@) == resolved_events(of_session(old(self)@.parked, session@))
                + spec_end(turn_of(old(self)@.turns, session@), stop_reason).1,
            final(self)@.parked == other_sessions(old(self)@.parked, session@),
            final(self)@.turns == put_turn(
                old(self)@.turns,
                session@,
                spec_end(turn_of(old(self)@.turns, session@), stop_reason).0,
            ),
            final(self)@.sessions == old(self)@.sessions,
            final(self)@.next_permission == old(self)@.next_permission,
            final(self)@.approved == old(self)@.approved,
    {
        let ghost old_view = self@;
        let (cancelled, mut events) = self.cancel_parked(session);
        let ghost after_cancel = self@;
        let i = self.turn_index(session);
        let ghost mid = self@;
        let mut ended = self.turns[i].end(stop_reason);
        let ghost e = events@;
        events.append(&mut ended);
        proof {
            assert(events_view(events@) =~= events_view(e) + spec_end(
                turn_of(old_view.turns, session@),
                stop_reason,
            ).1);
            lemma_first_match(old_view.turns, |t: SpecTurn| t.session == session@);
            let k = turn_slot(old_view.turns, session@);
            let next = spec_end(turn_of(old_view.turns, session@), stop_reason).0;
            assert(self@.turns =~= mid.turns.update(i as int, next));
            if k < old_view.turns.len() {
                assert(mid.turns =~= old_view.turns);
            } else {
                assert(mid.turns =~= old_view.turns.push(fresh_turn(session@)));
                assert(i == old_view.turns.len()) by {
                    lemma_first_match(mid.turns, |t: SpecTurn| t.session == session@);
                    if i < old_view.turns.len() {
                        assert(mid.turns[i as int] == old_view.turns[i as int]);
                    }
                }
            }
            assert(self@.turns =~= put_turn(old_view.turns, session@, next));
        }
        assert(self@.sessions =~= mid.sessions);
        assert(self@.parked =~= mid.parked);
        assert(self@.approved =~= mid.approved);
        (cancelled, events)
    }

    /// Ends a session's turn with an error: its parked requests are cancelled, then the
    /// turn reports the error.
    pub fn fail_turn(&mut self, session: &str, message: String) -> (res: (
        Vec<Parked>,
        Vec<AssistantEvent>,
    ))
        ensures
            parked_view(res.0@) == of_session(old(self)@.parked, session@),
            events_view(res.1@) == resolved_events(of_session(old(self)@.parked, session@))
                + seq![SpecEvent::Error { message: message@ }],
            final(self)@.parked == other_sessions(old(self)@.parked, session@),
            final(self)@.turns == put_turn(
                old(self)@.turns,
                session@,
                spec_reset(turn_of(old(self)@.turns, session@)),
            ),
            final(self)@.sessions == old(self)@.sessions,
            final(self)@.next_permission == old(self)@.next_permission,
            final(self)@.approved == old(self)@.approved,
    {
        let ghost old_view = self@;
        let (cancelled, mut events) = self.cancel_parked(session);
        let i = self.turn_index(session);
        let ghost mid = self@;
        let ghost m = message@;
        let mut failed = self.turns[i].fail(message);
        let ghost e = events@;
        events.append(&mut failed);
        proof {
            assert(events_view(events@) =~= events_view(e) + seq![SpecEvent::Error { message: m }]);
            lemma_first_match(old_view.turns, |t: SpecTurn| t.session == session@);
            let k = turn_slot(old_view.turns, session@);
            let next = spec_reset(turn_of(old_view.turns, session@));
            assert(self@.turns =~= mid.turns.update(i as int, next));
            if k < old_view.turns.len() {
                assert(mid.turns =~= old_view.turns);
            } else {
                assert(mid.turns =~= old_view.turns.push(fresh_turn(session@)));
                assert(i == old_view.turns.len()) by {
                    lemma_first_match(mid.turns, |t: SpecTurn| t.session == session@);
                    if i < old_view.turns.len() {
                        assert(mid.turns[i as int] == old_view.turns[i as int]);
                    }
                }
            }
            assert(self@.turns =~= put_turn(old_view.turns, session@, next));
        }
        assert(self@.sessions =~= mid.sessions);
        assert(self@.parked =~= mid.parked);
        assert(self@.approved =~= mid.approved);
        (cancelled, events)
    }
}

/// The name a turn knows for a call, unless it is unknown or empty.
pub open spec fn turn_call_name(t: SpecTurn, call_id: Seq<char>) -> Option<Seq<char>> {
    let i = call_slot(t.calls, call_id);
    if i < t.calls.len() && t.calls[i].call.name.len() > 0 {
        Some(t.calls[i].call.name)
    } else {
        None
    }
}

/// What a permission request is labelled with: its own title, else the name the turn
/// knows for the call, else the call's id.
pub open spec fn permission_label(turns: Seq<SpecTurn>, request: AgentPermissionRequest) -> Seq<
    char,
> {
    match request.title {
        Some(title) => title@,
        None => match turn_call_name(turn_of(turns, request.session@), request.tool_call_id@) {
            Some(name) => name,
            None => request.tool_call_id@,
        },
    }
}

/// What answers a parked request.
#[derive(Debug)]
pub enum Answer {
    /// Answer the agent's permission request with this option, or as cancelled.
    Permission { selected: Option<PermissionOptionId> },
    /// Start the command, or refuse it.
    Terminal { allowed: bool },
}

/// A parked request the user answered.
#[derive(Debug)]
pub struct Resolution {
    pub session: String,
    pub answer: Answer,
    pub events: Vec<AssistantEvent>,
}

/// Whether the agent's command may run at once, or waits on the user.
#[derive(Debug)]
pub enum TerminalDecision {
    /// The user allowed this command line for the session already.
    Run,
    /// The request is parked under this id until the user answers.
    Ask { request_id: PermissionRequestId, events: Vec<AssistantEvent> },
}

/// The options of a command the agent wants to run.
pub open spec fn terminal_options(id: Seq<char>) -> Seq<SpecPermissionOption> {
    seq![
        SpecPermissionOption {
            id: id + "-once"@,
            name: "Run"@,
            kind: PermissionOptionKind::AllowOnce,
        },
        SpecPermissionOption {
            id: id + "-session"@,
            name: "Allow for session"@,
            kind: PermissionOptionKind::AllowAlways,
        },
        SpecPermissionOption {
            id: id + "-reject"@,
            name: "Reject"@,
            kind: PermissionOptionKind::RejectOnce,
        },
    ]
}

/// The index of the parked request with the given id, or `parked.len()`.
pub open spec fn parked_slot(parked: Seq<SpecParked>, id: Seq<char>) -> int {
    first_match(parked, |p: SpecParked| p.request_id == id)
}

pub open spec fn opt_option_id(o: Option<PermissionOptionId>) -> Option<Seq<char>> {
    match o {
        Some(id) => Some(id@),
        None => None,
    }
}

fn suffixed(id: &PermissionRequestId, suffix: &str) -> (res: PermissionOptionId)
    ensures
        res@ == id@ + suffix@,
{
    let mut text = id.0.clone();
    text.append(suffix);
    PermissionOptionId(text)
}

impl Shared {
    /// Parks the agent's permission request until the user answers, and gives its id and
    /// the event that shows it.
    pub fn park_permission(&mut self, request: &AgentPermissionRequest) -> (res: (
        PermissionRequestId,
        Vec<AssistantEvent>,
    ))
        ensures
            res.0@ == permission_id(old(self)@.next_permission),
            events_view(res.1@) == seq![
                SpecEvent::PermissionRequested {
                    request: spec_permission_request(
                        res.0@,
                        permission_label(old(self)@.turns, *request),
                        *request,
                    ),
                },
            ],
            final(self)@.parked == old(self)@.parked.push(
                SpecParked {
                    request_id: res.0@,
                    session: request.session@,
                    kind: SpecParkedKind::Permission,
                },
            ),
            final(self)@.turns == if request.title is Some {
                old(self)@.turns
            } else {
                put_turn(
                    old(self)@.turns,
                    request.session@,
                    turn_of(old(self)@.turns, request.session@),
                )
            },
            final(self)@.next_permission == if old(self)@.next_permission < u64::MAX {
                old(self)@.next_permission + 1
            } else {
                0
            },
            final(self)@.sessions == old(self)@.sessions,
            final(self)@.approved == old(self)@.approved,
    {
        let ghost old_view = self@;
        let request_id = self.next_permission_id();
        let label = match &request.title {
            Some(title) => title.clone(),
            None => {
                let i = self.turn_index(request.session.as_str());
                let call_id = ToolCallId(request.tool_call_id.clone());
                match self.turns[i].call_name(&call_id) {
                    Some(name) => name,
                    None => request.tool_call_id.clone(),
                }
            },
        };
        assert(label@ == permission_label(old_view.turns, *request));
        let ghost mid = self@;
        self.parked.push(
            Parked {
                request_id: request_id.clone(),
                session: request.session.clone(),
                kind: ParkedKind::Permission,
            },
        );
        assert(self@.parked =~= mid.parked.push(self.parked@.last()@));
        assert(self@.sessions =~= mid.sessions);
        assert(self@.turns =~= mid.turns);
        assert(self@.approved =~= mid.approved);
        let mut events: Vec<AssistantEvent> = Vec::new();
        events.push(AssistantEvent::PermissionRequested {
            request: permission_request(request_id.clone(), label, request),
        });
        assert(events_view(events@) =~= seq![
            SpecEvent::PermissionRequested {
                request: spec_permission_request(
                    request_id@,
                    permission_label(old_view.turns, *request),
                    *request,
                ),
            },
        ]);
        (request_id, events)
    }
}

impl Shared {
    /// The agent asked to run a command. Nothing else gates it, so the user does: unless
    /// the user allowed this exact command line for the session, the request is parked
    /// with three options: run once, allow for the session, or reject.
    pub fn park_terminal(&mut self, request: &TerminalRequest) -> (res: TerminalDecision)
        ensures
            ({
                let label = spec_terminal_label(*request);
                if old(self)@.approved.contains((request.session@, label)) {
                    &&& res is Run
                    &&& final(self)@ == old(self)@
                } else {
                    let id = permission_id(old(self)@.next_permission);
                    &&& res matches TerminalDecision::Ask { request_id, events }
                        && request_id@ == id
                        && events_view(events@) == seq![
                            SpecEvent::PermissionRequested {
                                request: SpecPermissionRequest {
                                    id,
                                    label,
                                    call_id: None,
                                    options: terminal_options(id),
                                },
                            },
                        ]
                    &&& final(self)@ == (SpecShared {
                        parked: old(self)@.parked.push(
                            SpecParked {
                                request_id: id,
                                session: request.session@,
                                kind: SpecParkedKind::Terminal {
                                    label,
                                    allow_once: id + "-once"@,
                                    allow_session: id + "-session"@,
                                },
                            },
                        ),
                        next_permission: if old(self)@.next_permission < u64::MAX {
                            old(self)@.next_permission + 1
                        } else {
                            0
                        },
                        ..old(self)@
                    })
                }
            }),
    {
        let label = terminal_label(request);
        if self.is_approved(request.session.as_str(), label.as_str()) {
            return TerminalDecision::Run;
        }
        let ghost old_view = self@;
        let request_id = self.next_permission_id();
        let allow_once = suffixed(&request_id, "-once");
        let allow_session = suffixed(&request_id, "-session");
        let reject = suffixed(&request_id, "-reject");
        let ghost mid = self@;
        self.parked.push(
            Parked {
                request_id: request_id.clone(),
                session: request.session.clone(),
                kind: ParkedKind::Terminal {
                    label: label.clone(),
                    allow_once: allow_once.clone(),
                    allow_session: allow_session.clone(),
                },
            },
        );
        assert(self@.parked =~= mid.parked.push(self.parked@.last()@));
        assert(self@.sessions =~= mid.sessions);
        assert(self@.turns =~= mid.turns);
        assert(self@.approved =~= mid.approved);
        let mut options: Vec<PermissionOption> = Vec::new();
        options.push(
            PermissionOption {
                id: allow_once,
                name: "Run".to_owned(),
                kind: PermissionOptionKind::AllowOnce,
            },
        );
        options.push(
            PermissionOption {
                id: allow_session,
                name: "Allow for session".to_owned(),
                kind: PermissionOptionKind::AllowAlways,
            },
        );
        options.push(
            PermissionOption { id: reject, name: "Reject".to_owned(), kind: PermissionOptionKind::RejectOnce },
        );
        let ghost id = request_id@;
        let ghost l = label@;
        assert(options_view(options@) =~= terminal_options(id));
        let mut events: Vec<AssistantEvent> = Vec::new();
        events.push(
            AssistantEvent::PermissionRequested {
                request: PermissionRequest { id: request_id.clone(), label, call_id: None, options },
            },
        );
        assert(events_view(events@) =~= seq![
            SpecEvent::PermissionRequested {
                request: SpecPermissionRequest {
                    id,
                    label: l,
                    call_id: None,
                    options: terminal_options(id),
                },
            },
        ]);
        TerminalDecision::Ask { request_id, events }
    }

    /// The user answered a parked request: the request leaves the parked set and the
    /// thread hears that it is resolved. A command runs only if the user chose one of
    /// its two allow options, and allowing it for the session approves its command line
    /// for the rest of the session. An unknown id changes nothing.
    pub fn resolve_permission(
        &mut self,
        request_id: &PermissionRequestId,
        option: Option<PermissionOptionId>,
    ) -> (res: Option<Resolution>)
        ensures
            ({
                let i = parked_slot(old(self)@.parked, request_id@);
                if i < old(self)@.parked.len() {
                    let p = old(self)@.parked[i];
                    &&& res matches Some(r)
                    &&& r.session@ == p.session
                    &&& events_view(r.events@) == seq![
                        SpecEvent::PermissionResolved { request_id: request_id@ },
                    ]
                    &&& final(self)@.parked == old(self)@.parked.remove(i)
                    &&& final(self)@.sessions == old(self)@.sessions
                    &&& final(self)@.turns == old(self)@.turns
                    &&& final(self)@.next_permission == old(self)@.next_permission
                    &&& match p.kind {
                        SpecParkedKind::Permission => {
                            &&& r.answer matches Answer::Permission { selected }
                                && opt_option_id(selected) == opt_option_id(option)
                            &&& final(self)@.approved == old(self)@.approved
                        },
                        SpecParkedKind::Terminal { label, allow_once, allow_session } => {
                            let chosen = opt_option_id(option);
                            &&& r.answer matches Answer::Terminal { allowed }
                                && allowed == (chosen == Some(allow_once) || chosen == Some(
                                    allow_session,
                                ))
                            &&& final(self)@.approved == if chosen == Some(allow_session) {
                                old(self)@.approved.insert((p.session, label))
                            } else {
                                old(self)@.approved
                            }
                        },
                    }
                } else {
                    &&& res is None
                    &&& final(self)@ == old(self)@
                }
            }),
    {
        let ghost old_view = self@;
        let ghost v = self@.parked;
        let mut i: usize = 0;
        while i < self.parked.len()
            invariant
                0 <= i <= self.parked.len(),
                v == self@.parked,
                forall|j: int| 0 <= j < i ==> (#[trigger] v[j]).request_id != request_id@,
            ensures
                0 <= i <= self.parked.len(),
                forall|j: int| 0 <= j < i ==> (#[trigger] v[j]).request_id != request_id@,
                i < self.parked.len() ==> v[i as int].request_id == request_id@,
            decreases self.parked.len() - i,
        {
            assert(v[i as int] == self.parked@[i as int]@);
            if self.parked[i].request_id.0 == request_id.0 {
                break;
            }
            i = i + 1;
        }
        proof {
            lemma_first_match_is(v, |p: SpecParked| p.request_id == request_id@, i as int);
        }
        if i == self.parked.len() {
            return None;
        }
        let parked = self.parked.remove(i);
        assert(parked@ == v[i as int]);
        assert(self@.parked =~= v.remove(i as int));
        assert(self@.sessions =~= old_view.sessions);
        assert(self@.turns =~= old_view.turns);
        assert(self@.approved =~= old_view.approved);
        let Parked { request_id: _, session, kind } = parked;
        let answer = match kind {
            ParkedKind::Permission => Answer::Permission { selected: option },
            ParkedKind::Terminal { label, allow_once, allow_session } => {
                let allowed = match &option {
                    Some(chosen) => {
                        if chosen.0 == allow_session.0 {
                            self.approve_for_session(session.as_str(), label);
                        }
                        chosen.0 == allow_once.0 || chosen.0 == allow_session.0
                    },
                    None => false,
                };
                Answer::Terminal { allowed }
            },
        };
        let mut events: Vec<AssistantEvent> = Vec::new();
        events.push(AssistantEvent::PermissionResolved { request_id: request_id.clone() });
        assert(events_view(events@) =~= seq![
            SpecEvent::PermissionResolved { request_id: request_id@ },
        ]);
        Some(Resolution { session, answer, events })
    }
}

// ---------------------------------------------------------------------------
// Laws
// ---------------------------------------------------------------------------

/// A session approval covers exactly one command line in exactly one session: after
/// approving `label` in `session`, a command line is approved in a session iff it was
/// before, or it is that same line in that same session.
pub proof fn lemma_session_approval_is_exact(
    approved: Set<(Seq<char>, Seq<char>)>,
    session: Seq<char>,
    label: Seq<char>,
    other_session: Seq<char>,
    other_label: Seq<char>,
)
    ensures
        approved.insert((session, label)).contains((other_session, other_label)) <==> (
        approved.contains((other_session, other_label)) || (other_session == session
            && other_label == label)),
{
}

/// Permission requests get distinct ids for distinct counter values.
pub proof fn lemma_permission_ids_distinct(a: nat, b: nat)
    requires
        a != b,
    ensures
        permission_id(a) != permission_id(b),
{
    lemma_numbered_distinct("permission-"@, a, b);
}

/// Minting counts: from a state whose counter is at zero (as `Shared::new` leaves it),
/// the ids of `n` mintings are `permission-0` up to `permission-{n - 1}`, all distinct,
/// and the counter then stands at `n`, so the next id is `permission-{n}`. Nothing else
/// in the state changes.
pub proof fn lemma_permission_ids_count_calls(s: SpecShared, n: nat)
    requires
        s.next_permission == 0,
        n <= u64::MAX,
    ensures
        minted_permission_ids(s, n).0 == (SpecShared { next_permission: n, ..s }),
        minted_permission_ids(s, n).1.len() == n,
        forall|i: int| 0 <= i < n ==> #[trigger] minted_permission_ids(s, n).1[i] == permission_id(i as nat),
        forall|i: int, j: int|
            0 <= i < j < n ==> #[trigger] minted_permission_ids(s, n).1[i]
                != #[trigger] minted_permission_ids(s, n).1[j],
    decreases n,
{
    if n > 0 {
        lemma_permission_ids_count_calls(s, (n - 1) as nat);
    }
    let ids = minted_permission_ids(s, n).1;
    assert forall|i: int, j: int| 0 <= i < j < n implies #[trigger] ids[i] != #[trigger] ids[j] by {
        lemma_permission_ids_distinct(i as nat, j as nat);
    }
}

/// What the user reads on a permission request (the label of the request that
/// `park_permission` shows): the agent's title where it gives one; in a session that has
/// no turn yet, the call's id where it gives none; and, once the session's turn has
/// mapped the announcement of the call under a non-empty title, that title.
pub proof fn lemma_permission_label_names_the_call(
    turns: Seq<SpecTurn>,
    request: AgentPermissionRequest,
    call: AgentToolCall,
)
    ensures
        request.title matches Some(title) ==> permission_label(turns, request) == title@,
        request.title is None && (forall|j: int|
            0 <= j < turns.len() ==> (#[trigger] turns[j]).session != request.session@)
            ==> permission_label(turns, request) == request.tool_call_id@,
        ({
            let session = request.session@;
            let announced = put_turn(
                turns,
                session,
                spec_apply(turn_of(turns, session), SessionUpdate::ToolCall(call)).0,
            );
            request.title is None && request.tool_call_id@ == call.id@ && call.title@.len() > 0
                ==> permission_label(announced, request) == call.title@
        }),
{
    let session = request.session@;
    let pt = |t: SpecTurn| t.session == session;
    lemma_first_match(turns, pt);
    let t = turn_of(turns, session);
    let (t1, _) = spec_apply(t, SessionUpdate::ToolCall(call));
    let announced = put_turn(turns, session, t1);
    let i = turn_slot(turns, session);
    if i < turns.len() {
        lemma_first_match_is(announced, pt, i);
    } else {
        assert forall|j: int| 0 <= j < turns.len() implies !pt(#[trigger] announced[j]) by {
            assert(announced[j] == turns[j]);
        }
        lemma_first_match_is(announced, pt, turns.len() as int);
    }
    assert(turn_of(announced, session) == t1);
    let (t0, _, _) = spec_open(t);
    let pc = |c: SpecCallState| c.call.id == call.id@;
    lemma_first_match(t0.calls, pc);
    let state = SpecCallState { call: announced_call(call), output: spec_content_output(call.content@) };
    let calls = put_call(t0.calls, state);
    assert(t1.calls == calls);
    let k = call_slot(t0.calls, call.id@);
    if k < t0.calls.len() {
        lemma_first_match_is(calls, pc, k);
    } else {
        assert forall|j: int| 0 <= j < t0.calls.len() implies !pc(#[trigger] calls[j]) by {
            assert(calls[j] == t0.calls[j]);
        }
        lemma_first_match_is(calls, pc, t0.calls.len() as int);
    }
}

/// Ending a session's turn splits the parked requests: the session's are all
/// cancelled, every other session keeps its own, and none is lost or duplicated.
pub proof fn lemma_cancel_parked_splits(parked: Seq<SpecParked>, session: Seq<char>)
    ensures
        of_session(parked, session).len() + other_sessions(parked, session).len() == parked.len(),
        forall|k: int|
            0 <= k < of_session(parked, session).len() ==> (#[trigger] of_session(
                parked,
                session,
            )[k]).session == session,
        forall|k: int|
            0 <= k < other_sessions(parked, session).len() ==> (#[trigger] other_sessions(
                parked,
                session,
            )[k]).session != session,
    decreases parked.len(),
{
    if parked.len() > 0 {
        lemma_cancel_parked_splits(parked.drop_last(), session);
        let a = of_session(parked.drop_last(), session);
        let b = other_sessions(parked.drop_last(), session);
        if parked.last().session == session {
            assert forall|k: int| 0 <= k < of_session(parked, session).len() implies (
            #[trigger] of_session(parked, session)[k]).session == session by {
                if k < a.len() {
                    assert(of_session(parked, session)[k] == a[k]);
                }
            }
        } else {
            assert forall|k: int| 0 <= k < other_sessions(parked, session).len() implies (
            #[trigger] other_sessions(parked, session)[k]).session != session by {
                if k < b.len() {
                    assert(other_sessions(parked, session)[k] == b[k]);
                }
            }
        }
    }
}

/// A request parked under an id that no other parked request holds is the one that
/// resolving that id finds.
pub proof fn lemma_parked_request_is_found(parked: Seq<SpecParked>, request: SpecParked)
    requires
        forall|k: int| 0 <= k < parked.len() ==> (#[trigger] parked[k]).request_id
            != request.request_id,
    ensures
        parked_slot(parked.push(request), request.request_id) == parked.len(),
{
    let all = parked.push(request);
    assert forall|k: int| 0 <= k < parked.len() implies !(#[trigger] all[k].request_id
        == request.request_id) by {
        assert(all[k] == parked[k]);
    }
    lemma_first_match_is(all, |p: SpecParked| p.request_id == request.request_id, parked.len() as int);
}

} // verus!
