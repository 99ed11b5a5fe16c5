//! Folding a runtime's events into a thread.

use vstd::prelude::*;

use crate::model::{
    parts_view, AssistantEvent, Message, MessageId, MessagePart,
    PermissionRequestId, Role, SpecEvent, SpecMessage, SpecPart, SpecPermissionRequest, SpecStatus, SpecThread,
    SpecToolCall, SpecToolResult, Thread, ThreadId, ThreadStatus, UserInput, ToolCall, ToolCallId, ToolCallStatus,
};
use crate::seqs::{first_match, lemma_first_match, lemma_first_match_is};

verus! {

// ---------------------------------------------------------------------------
// What an event does to a message's parts
// ---------------------------------------------------------------------------

/// A text delta extends a trailing text part, or starts a new one.
pub open spec fn push_text(parts: Seq<SpecPart>, delta: Seq<char>) -> Seq<SpecPart> {
    if parts.len() > 0 {
        match parts.last() {
            SpecPart::Text { text } => parts.update(
                parts.len() - 1,
                SpecPart::Text { text: text + delta },
            ),
            _ => parts.push(SpecPart::Text { text: delta }),
        }
    } else {
        parts.push(SpecPart::Text { text: delta })
    }
}

/// A thinking delta extends a trailing thinking part, or starts a new unsigned one.
pub open spec fn push_thinking(parts: Seq<SpecPart>, delta: Seq<char>) -> Seq<SpecPart> {
    if parts.len() > 0 {
        match parts.last() {
            SpecPart::Thinking { text, signature } => parts.update(
                parts.len() - 1,
                SpecPart::Thinking { text: text + delta, signature },
            ),
            _ => parts.push(SpecPart::Thinking { text: delta, signature: None }),
        }
    } else {
        parts.push(SpecPart::Thinking { text: delta, signature: None })
    }
}

pub open spec fn is_call_part(p: SpecPart, id: Seq<char>) -> bool {
    match p {
        SpecPart::ToolCall(call) => call.id == id,
        _ => false,
    }
}

/// The index of the first tool call part with the given id, or `parts.len()`.
pub open spec fn call_index(parts: Seq<SpecPart>, id: Seq<char>) -> int {
    first_match(parts, |p: SpecPart| is_call_part(p, id))
}

/// A call replaces the first part that holds a call with its id, or is appended.
pub open spec fn upsert_call(parts: Seq<SpecPart>, call: SpecToolCall) -> Seq<SpecPart> {
    let i = call_index(parts, call.id);
    if i < parts.len() {
        parts.update(i, SpecPart::ToolCall(call))
    } else {
        parts.push(SpecPart::ToolCall(call))
    }
}

/// The first call with the given id is marked finished; nothing else changes.
pub open spec fn finish_call(parts: Seq<SpecPart>, id: Seq<char>) -> Seq<SpecPart> {
    let i = call_index(parts, id);
    if i < parts.len() {
        match parts[i] {
            SpecPart::ToolCall(call) => parts.update(
                i,
                SpecPart::ToolCall(SpecToolCall { status: ToolCallStatus::Finished, ..call }),
            ),
            _ => parts,
        }
    } else {
        parts
    }
}

pub open spec fn with_parts(m: SpecMessage, parts: Seq<SpecPart>) -> SpecMessage {
    SpecMessage { parts, ..m }
}

// ---------------------------------------------------------------------------
// What an event does to a thread
// ---------------------------------------------------------------------------

/// The index of the first message with the given id, or `messages.len()`.
pub open spec fn message_index(messages: Seq<SpecMessage>, id: Seq<char>) -> int {
    first_match(messages, |m: SpecMessage| m.id == id)
}

/// The index of the first pending request with the given id, or `pending.len()`.
pub open spec fn request_index(pending: Seq<SpecPermissionRequest>, id: Seq<char>) -> int {
    first_match(pending, |r: SpecPermissionRequest| r.id == id)
}

/// The message with the given id has its parts rewritten; an unknown id changes nothing.
pub open spec fn update_parts(
    messages: Seq<SpecMessage>,
    id: Seq<char>,
    f: spec_fn(Seq<SpecPart>) -> Seq<SpecPart>,
) -> Seq<SpecMessage> {
    let i = message_index(messages, id);
    if i < messages.len() {
        messages.update(i, with_parts(messages[i], f(messages[i].parts)))
    } else {
        messages
    }
}

pub open spec fn with_messages(t: SpecThread, messages: Seq<SpecMessage>) -> SpecThread {
    SpecThread { messages, ..t }
}

/// The thread after one event.
pub open spec fn apply_event(t: SpecThread, e: SpecEvent) -> SpecThread {
    match e {
        SpecEvent::MessageStarted { message } => SpecThread {
            messages: t.messages.push(message),
            status: if t.pending.len() == 0 {
                SpecStatus::Generating
            } else {
                SpecStatus::WaitingForApproval
            },
            ..t
        },
        SpecEvent::TextDelta { message_id, delta } => with_messages(
            t,
            update_parts(t.messages, message_id, |ps: Seq<SpecPart>| push_text(ps, delta)),
        ),
        SpecEvent::ThinkingDelta { message_id, delta } => with_messages(
            t,
            update_parts(t.messages, message_id, |ps: Seq<SpecPart>| push_thinking(ps, delta)),
        ),
        SpecEvent::ToolCallStarted { message_id, call } => with_messages(
            t,
            update_parts(t.messages, message_id, |ps: Seq<SpecPart>| upsert_call(ps, call)),
        ),
        SpecEvent::ToolCallUpdated { message_id, call } => with_messages(
            t,
            update_parts(t.messages, message_id, |ps: Seq<SpecPart>| upsert_call(ps, call)),
        ),
        SpecEvent::ToolCallFinished { message_id, result } => with_messages(
            t,
            update_parts(
                t.messages,
                message_id,
                |ps: Seq<SpecPart>|
                    finish_call(ps, result.call_id).push(SpecPart::ToolResult(result)),
            ),
        ),
        SpecEvent::MessageFinished { .. } => SpecThread {
            status: SpecStatus::Idle,
            pending: Seq::empty(),
            ..t
        },
        SpecEvent::PermissionRequested { request } => SpecThread {
            pending: t.pending.push(request),
            status: SpecStatus::WaitingForApproval,
            ..t
        },
        SpecEvent::PermissionResolved { request_id } => {
            let i = request_index(t.pending, request_id);
            let pending = if i < t.pending.len() {
                t.pending.remove(i)
            } else {
                t.pending
            };
            SpecThread {
                pending,
                status: if pending.len() == 0 && t.status is WaitingForApproval {
                    SpecStatus::Generating
                } else {
                    t.status
                },
                ..t
            }
        },
        SpecEvent::Error { message } => SpecThread {
            status: SpecStatus::Error { message },
            pending: Seq::empty(),
            ..t
        },
    }
}

/// A thread waits for approval exactly while some permission request is pending.
pub open spec fn well_formed(t: SpecThread) -> bool {
    (t.status is WaitingForApproval) <==> t.pending.len() > 0
}

/// The message that is streaming: the trailing assistant message while generating.
pub open spec fn streaming_message(t: SpecThread) -> Option<Seq<char>> {
    if t.status is Generating && t.messages.len() > 0 && t.messages.last().role
        == Role::Assistant {
        Some(t.messages.last().id)
    } else {
        None
    }
}

// ---------------------------------------------------------------------------
// Implementation
// ---------------------------------------------------------------------------

impl Message {
    fn push_text_delta(&mut self, delta: String)
        ensures
            final(self)@ == with_parts(old(self)@, push_text(old(self)@.parts, delta@)),
    {
        let n = self.parts.len();
        let ghost old_parts = self.parts@;
        if n > 0 {
            match &mut self.parts[n - 1] {
                MessagePart::Text { text } => {
                    text.append(delta.as_str());
                    proof {
                        assert(parts_view(self.parts@) =~= push_text(parts_view(old_parts), delta@));
                    }
                    return;
                },
                _ => {},
            }
        }
        self.parts.push(MessagePart::Text { text: delta });
        proof {
            assert(parts_view(self.parts@) =~= push_text(parts_view(old_parts), delta@));
        }
    }

    fn push_thinking_delta(&mut self, delta: String)
        ensures
            final(self)@ == with_parts(old(self)@, push_thinking(old(self)@.parts, delta@)),
    {
        let n = self.parts.len();
        let ghost old_parts = self.parts@;
        if n > 0 {
            match &mut self.parts[n - 1] {
                MessagePart::Thinking { text, .. } => {
                    text.append(delta.as_str());
                    proof {
                        assert(parts_view(self.parts@) =~= push_thinking(
                            parts_view(old_parts),
                            delta@,
                        ));
                    }
                    return;
                },
                _ => {},
            }
        }
        self.parts.push(MessagePart::Thinking { text: delta, signature: None });
        proof {
            assert(parts_view(self.parts@) =~= push_thinking(parts_view(old_parts), delta@));
        }
    }

    /// The index of the first part that holds a call with the given id.
    fn call_position(&self, call_id: &ToolCallId) -> (res: usize)
        ensures
            res == call_index(self@.parts, call_id@),
    {
        let mut i: usize = 0;
        while i < self.parts.len()
            invariant
                0 <= i <= self.parts.len(),
                forall|j: int| 0 <= j < i ==> !is_call_part(#[trigger] self@.parts[j], call_id@),
            ensures
                0 <= i <= self.parts.len(),
                forall|j: int| 0 <= j < i ==> !is_call_part(#[trigger] self@.parts[j], call_id@),
                i < self.parts.len() ==> is_call_part(self@.parts[i as int], call_id@),
            decreases self.parts.len() - i,
        {
            let found = match &self.parts[i] {
                MessagePart::ToolCall(call) => call.id.0 == call_id.0,
                _ => false,
            };
            assert(self@.parts[i as int] == self.parts@[i as int]@);
            assert(found == is_call_part(self@.parts[i as int], call_id@));
            if found {
                break;
            }
            i = i + 1;
        }
        proof {
            lemma_first_match_is(self@.parts, |p: SpecPart| is_call_part(p, call_id@), i as int);
        }
        i
    }

    fn upsert_tool_call(&mut self, call: ToolCall)
        ensures
            final(self)@ == with_parts(old(self)@, upsert_call(old(self)@.parts, call@)),
    {
        let ghost old_parts = self.parts@;
        let i = self.call_position(&call.id);
        if i < self.parts.len() {
            self.parts[i] = MessagePart::ToolCall(call);
        } else {
            self.parts.push(MessagePart::ToolCall(call));
        }
        proof {
            assert(parts_view(self.parts@) =~= upsert_call(parts_view(old_parts), call@));
        }
    }

    fn finish_tool_call(&mut self, call_id: &ToolCallId)
        ensures
            final(self)@ == with_parts(old(self)@, finish_call(old(self)@.parts, call_id@)),
    {
        let ghost old_parts = self.parts@;
        let i = self.call_position(call_id);
        if i < self.parts.len() {
            proof {
                lemma_first_match(parts_view(old_parts), |q: SpecPart| is_call_part(q, call_id@));
            }
            match &mut self.parts[i] {
                MessagePart::ToolCall(call) => {
                    call.status = ToolCallStatus::Finished;
                },
                _ => {},
            }
        }
        proof {
            assert(parts_view(self.parts@) =~= finish_call(parts_view(old_parts), call_id@));
        }
    }
}

} // verus!

verus! {

impl Thread {
    /// The index of the first message with the given id.
    fn message_index(&self, message_id: &MessageId) -> (res: usize)
        ensures
            res == message_index(self@.messages, message_id@),
    {
        let mut i: usize = 0;
        while i < self.messages.len()
            invariant
                0 <= i <= self.messages.len(),
                forall|j: int| 0 <= j < i ==> (#[trigger] self@.messages[j]).id != message_id@,
            ensures
                0 <= i <= self.messages.len(),
                forall|j: int| 0 <= j < i ==> (#[trigger] self@.messages[j]).id != message_id@,
                i < self.messages.len() ==> self@.messages[i as int].id == message_id@,
            decreases self.messages.len() - i,
        {
            assert(self@.messages[i as int] == self.messages@[i as int]@);
            if self.messages[i].id.0 == message_id.0 {
                break;
            }
            i = i + 1;
        }
        proof {
            lemma_first_match_is(self@.messages, |m: SpecMessage| m.id == message_id@, i as int);
        }
        i
    }

    /// The index of the first pending request with the given id.
    fn request_index(&self, request_id: &PermissionRequestId) -> (res: usize)
        ensures
            res == request_index(self@.pending, request_id@),
    {
        let mut i: usize = 0;
        while i < self.pending_permissions.len()
            invariant
                0 <= i <= self.pending_permissions.len(),
                forall|j: int| 0 <= j < i ==> (#[trigger] self@.pending[j]).id != request_id@,
            ensures
                0 <= i <= self.pending_permissions.len(),
                forall|j: int| 0 <= j < i ==> (#[trigger] self@.pending[j]).id != request_id@,
                i < self.pending_permissions.len() ==> self@.pending[i as int].id == request_id@,
            decreases self.pending_permissions.len() - i,
        {
            assert(self@.pending[i as int] == self.pending_permissions@[i as int]@);
            if self.pending_permissions[i].id.0 == request_id.0 {
                break;
            }
            i = i + 1;
        }
        proof {
            lemma_first_match_is(
                self@.pending,
                |r: SpecPermissionRequest| r.id == request_id@,
                i as int,
            );
        }
        i
    }

    /// Folds one event into the thread.
    pub fn apply_event(&mut self, event: AssistantEvent)
        ensures
            final(self)@ == apply_event(old(self)@, event@),
    {
        let ghost old_view = self@;
        let ghost ev = event@;
        match event {
            AssistantEvent::MessageStarted { message } => {
                self.messages.push(message);
                if self.pending_permissions.len() == 0 {
                    self.status = ThreadStatus::Generating;
                } else {
                    self.status = ThreadStatus::WaitingForApproval;
                }
                proof {
                    assert(self@.messages =~= apply_event(old_view, ev).messages);
                }
            },
            AssistantEvent::TextDelta { message_id, delta } => {
                let i = self.message_index(&message_id);
                if i < self.messages.len() {
                    self.messages[i].push_text_delta(delta);
                }
                proof {
                    assert(self@.messages =~= apply_event(old_view, ev).messages);
                }
            },
            AssistantEvent::ThinkingDelta { message_id, delta } => {
                let i = self.message_index(&message_id);
                if i < self.messages.len() {
                    self.messages[i].push_thinking_delta(delta);
                }
                proof {
                    assert(self@.messages =~= apply_event(old_view, ev).messages);
                }
            },
            AssistantEvent::ToolCallStarted { message_id, call } => {
                let i = self.message_index(&message_id);
                if i < self.messages.len() {
                    self.messages[i].upsert_tool_call(call);
                }
                proof {
                    assert(self@.messages =~= apply_event(old_view, ev).messages);
                }
            },
            AssistantEvent::ToolCallUpdated { message_id, call } => {
                let i = self.message_index(&message_id);
                if i < self.messages.len() {
                    self.messages[i].upsert_tool_call(call);
                }
                proof {
                    assert(self@.messages =~= apply_event(old_view, ev).messages);
                }
            },
            AssistantEvent::ToolCallFinished { message_id, result } => {
                let i = self.message_index(&message_id);
                if i < self.messages.len() {
                    let ghost before = self.messages@[i as int]@;
                    self.messages[i].finish_tool_call(&result.call_id);
                    let ghost r = result@;
                    self.messages[i].parts.push(MessagePart::ToolResult(result));
                    proof {
                        assert(self.messages@[i as int]@.parts =~= finish_call(
                            before.parts,
                            r.call_id,
                        ).push(SpecPart::ToolResult(r)));
                    }
                }
                proof {
                    assert(self@.messages =~= apply_event(old_view, ev).messages);
                }
            },
            AssistantEvent::MessageFinished { .. } => {
                self.status = ThreadStatus::Idle;
                self.pending_permissions.clear();
                proof {
                    assert(self@.pending =~= Seq::<SpecPermissionRequest>::empty());
                }
            },
            AssistantEvent::PermissionRequested { request } => {
                self.pending_permissions.push(request);
                self.status = ThreadStatus::WaitingForApproval;
                proof {
                    assert(self@.pending =~= apply_event(old_view, ev).pending);
                }
            },
            AssistantEvent::PermissionResolved { request_id } => {
                let i = self.request_index(&request_id);
                if i < self.pending_permissions.len() {
                    self.pending_permissions.remove(i);
                }
                let waiting = match self.status {
                    ThreadStatus::WaitingForApproval => true,
                    _ => false,
                };
                if self.pending_permissions.len() == 0 && waiting {
                    self.status = ThreadStatus::Generating;
                }
                proof {
                    assert(self@.pending =~= apply_event(old_view, ev).pending);
                }
            },
            AssistantEvent::Error { message } => {
                self.status = ThreadStatus::Error { message };
                self.pending_permissions.clear();
                proof {
                    assert(self@.pending =~= Seq::<SpecPermissionRequest>::empty());
                }
            },
        }
    }

    /// Whether the runtime is producing output, as opposed to idling, failing or
    /// waiting on the user.
    pub fn is_generating(&self) -> (res: bool)
        ensures
            res == (self@.status is Generating),
    {
        match self.status {
            ThreadStatus::Generating => true,
            _ => false,
        }
    }

    /// The id of the message that is streaming, if any: the trailing message, while the
    /// thread is generating and that message is the assistant's.
    pub fn streaming_message_id(&self) -> (res: Option<&MessageId>)
        ensures
            match res {
                Some(id) => streaming_message(self@) == Some(id@),
                None => streaming_message(self@).is_none(),
            },
    {
        if !self.is_generating() {
            return None;
        }
        let n = self.messages.len();
        if n == 0 {
            return None;
        }
        let last = &self.messages[n - 1];
        assert(self@.messages.last() == last@);
        if last.role == Role::Assistant {
            Some(&last.id)
        } else {
            None
        }
    }
}

} // verus!

verus! {

impl Message {
    /// An empty message.
    pub fn new(id: &str, role: Role) -> (res: Self)
        ensures
            res@ == (SpecMessage { id: id@, role, parts: Seq::empty() }),
    {
        let res = Message { id: MessageId(id.to_owned()), role, parts: Vec::new() };
        assert(res@.parts =~= Seq::<SpecPart>::empty());
        res
    }

    /// A user message holding one text part.
    pub fn user(id: &str, text: &str) -> (res: Self)
        ensures
            res@ == (SpecMessage {
                id: id@,
                role: Role::User,
                parts: seq![SpecPart::Text { text: text@ }],
            }),
    {
        let mut parts = Vec::new();
        parts.push(MessagePart::Text { text: text.to_owned() });
        let res = Message { id: MessageId(id.to_owned()), role: Role::User, parts };
        assert(res@.parts =~= seq![SpecPart::Text { text: text@ }]);
        res
    }

    /// An assistant message holding one text part.
    pub fn assistant(id: &str, text: &str) -> (res: Self)
        ensures
            res@ == (SpecMessage {
                id: id@,
                role: Role::Assistant,
                parts: seq![SpecPart::Text { text: text@ }],
            }),
    {
        let mut parts = Vec::new();
        parts.push(MessagePart::Text { text: text.to_owned() });
        let res = Message { id: MessageId(id.to_owned()), role: Role::Assistant, parts };
        assert(res@.parts =~= seq![SpecPart::Text { text: text@ }]);
        res
    }
}

impl UserInput {
    /// Input made of text alone.
    pub fn text(thread_id: &str, text: &str) -> (res: Self)
        ensures
            res.thread_id@ == thread_id@,
            res.text@ == text@,
            res.attachments@.len() == 0,
    {
        UserInput {
            thread_id: ThreadId(thread_id.to_owned()),
            text: text.to_owned(),
            attachments: Vec::new(),
        }
    }
}

// ---------------------------------------------------------------------------
// Laws
// ---------------------------------------------------------------------------

/// Every event keeps a well-formed thread well-formed: the thread waits for approval
/// exactly while a permission request is pending.
pub proof fn lemma_apply_event_keeps_well_formed(t: SpecThread, e: SpecEvent)
    requires
        well_formed(t),
    ensures
        well_formed(apply_event(t, e)),
{
    match e {
        SpecEvent::PermissionResolved { request_id } => {
            let i = request_index(t.pending, request_id);
            lemma_first_match(t.pending, |r: SpecPermissionRequest| r.id == request_id);
        },
        _ => {},
    }
}

/// No event removes or reorders messages, or changes a message's id or role: only a
/// started message is appended.
pub proof fn lemma_apply_event_keeps_messages(t: SpecThread, e: SpecEvent)
    ensures
        apply_event(t, e).messages.len() == t.messages.len() + if e is MessageStarted {
            1int
        } else {
            0int
        },
        forall|k: int|
            0 <= k < t.messages.len() ==> (#[trigger] apply_event(t, e).messages[k]).id
                == t.messages[k].id && apply_event(t, e).messages[k].role == t.messages[k].role,
{
    let id = match e {
        SpecEvent::TextDelta { message_id, .. } => message_id,
        SpecEvent::ThinkingDelta { message_id, .. } => message_id,
        SpecEvent::ToolCallStarted { message_id, .. } => message_id,
        SpecEvent::ToolCallUpdated { message_id, .. } => message_id,
        SpecEvent::ToolCallFinished { message_id, .. } => message_id,
        _ => Seq::empty(),
    };
    lemma_first_match(t.messages, |m: SpecMessage| m.id == id);
}

/// A tool call event lands in the first message with its id, and only there: that
/// message's parts get the call in place of the first part that holds a call with the
/// same id, or, where no part does, the call is appended after them. Nothing else in the
/// thread changes.
pub proof fn lemma_call_event_upserts_the_call(
    t: SpecThread,
    message_id: Seq<char>,
    call: SpecToolCall,
    started: bool,
    i: int,
)
    requires
        0 <= i < t.messages.len(),
        t.messages[i].id == message_id,
        forall|j: int| 0 <= j < i ==> (#[trigger] t.messages[j]).id != message_id,
    ensures
        ({
            let e = if started {
                SpecEvent::ToolCallStarted { message_id, call }
            } else {
                SpecEvent::ToolCallUpdated { message_id, call }
            };
            let t1 = apply_event(t, e);
            let ps = t.messages[i].parts;
            let qs = t1.messages[i].parts;
            &&& t1.id == t.id && t1.status == t.status && t1.pending == t.pending
            &&& t1.messages.len() == t.messages.len()
            &&& forall|j: int| 0 <= j < t.messages.len() && j != i ==> #[trigger] t1.messages[j] == t.messages[j]
            &&& t1.messages[i].id == message_id && t1.messages[i].role == t.messages[i].role
            &&& (forall|k: int| 0 <= k < ps.len() ==> !(#[trigger] ps[k] matches SpecPart::ToolCall(c) && c.id == call.id))
                ==> qs == ps.push(SpecPart::ToolCall(call))
            &&& forall|k: int|
                0 <= k < ps.len() && (#[trigger] ps[k] matches SpecPart::ToolCall(c) && c.id == call.id)
                    && (forall|l: int| 0 <= l < k ==> !(#[trigger] ps[l] matches SpecPart::ToolCall(c) && c.id == call.id))
                    ==> qs == ps.update(k, SpecPart::ToolCall(call))
        }),
{
    let pm = |m: SpecMessage| m.id == message_id;
    lemma_first_match_is(t.messages, pm, i);
    let ps = t.messages[i].parts;
    let pc = |p: SpecPart| is_call_part(p, call.id);
    lemma_first_match(ps, pc);
    let c = call_index(ps, call.id);
    assert forall|k: int|
        0 <= k < ps.len() && (#[trigger] ps[k] matches SpecPart::ToolCall(x) && x.id == call.id)
            && (forall|l: int| 0 <= l < k ==> !(#[trigger] ps[l] matches SpecPart::ToolCall(x) && x.id == call.id))
        implies c == k by {
        assert forall|l: int| 0 <= l < k implies !pc(#[trigger] ps[l]) by {
            assert(!(ps[l] matches SpecPart::ToolCall(x) && x.id == call.id));
        }
        lemma_first_match_is(ps, pc, k);
    }
    if c < ps.len() {
        assert(ps[c] matches SpecPart::ToolCall(x) && x.id == call.id);
    }
}

/// `t1` is `t` with the parts of message `i` rewritten, and nothing else changed.
pub open spec fn rewrites_parts_only(t: SpecThread, t1: SpecThread, i: int) -> bool {
    &&& t1.id == t.id && t1.status == t.status && t1.pending == t.pending
    &&& t1.messages.len() == t.messages.len()
    &&& forall|j: int| 0 <= j < t.messages.len() && j != i ==> #[trigger] t1.messages[j] == t.messages[j]
    &&& t1.messages[i].id == t.messages[i].id && t1.messages[i].role == t.messages[i].role
}

/// Text and thinking deltas, and tool results, land in the first message with their id:
/// a text delta extends a trailing text part or starts a text part after the others; a
/// thinking delta does the same with a trailing thinking part, keeping its signature, or
/// starts an unsigned one; a result marks the first call with its id finished, leaves
/// every other part as it was, and follows them as a part of its own.
pub proof fn lemma_deltas_and_results_land_in_their_message(
    t: SpecThread,
    message_id: Seq<char>,
    i: int,
    delta: Seq<char>,
    result: SpecToolResult,
)
    requires
        0 <= i < t.messages.len(),
        t.messages[i].id == message_id,
        forall|j: int| 0 <= j < i ==> (#[trigger] t.messages[j]).id != message_id,
    ensures
        ({
            let ps = t.messages[i].parts;
            let t1 = apply_event(t, SpecEvent::TextDelta { message_id, delta });
            &&& rewrites_parts_only(t, t1, i)
            &&& t1.messages[i].parts == if ps.len() > 0 && ps.last() is Text {
                ps.drop_last().push(SpecPart::Text { text: ps.last()->Text_text + delta })
            } else {
                ps.push(SpecPart::Text { text: delta })
            }
        }),
        ({
            let ps = t.messages[i].parts;
            let t1 = apply_event(t, SpecEvent::ThinkingDelta { message_id, delta });
            &&& rewrites_parts_only(t, t1, i)
            &&& t1.messages[i].parts == if ps.len() > 0 && ps.last() is Thinking {
                ps.drop_last().push(
                    SpecPart::Thinking {
                        text: ps.last()->Thinking_text + delta,
                        signature: ps.last()->Thinking_signature,
                    },
                )
            } else {
                ps.push(SpecPart::Thinking { text: delta, signature: None })
            }
        }),
        ({
            let ps = t.messages[i].parts;
            let qs = apply_event(t, SpecEvent::ToolCallFinished { message_id, result }).messages[i].parts;
            let is_result_call = |p: SpecPart| p matches SpecPart::ToolCall(c) && c.id == result.call_id;
            &&& rewrites_parts_only(
                t,
                apply_event(t, SpecEvent::ToolCallFinished { message_id, result }),
                i,
            )
            &&& qs.len() == ps.len() + 1
            &&& qs.last() == SpecPart::ToolResult(result)
            &&& forall|k: int|
                0 <= k < ps.len() ==> #[trigger] qs[k] == if is_result_call(ps[k]) && forall|l: int|
                    0 <= l < k ==> !is_result_call(#[trigger] ps[l]) {
                    SpecPart::ToolCall(SpecToolCall { status: ToolCallStatus::Finished, ..ps[k]->ToolCall_0 })
                } else {
                    ps[k]
                }
        }),
{
    let pm = |m: SpecMessage| m.id == message_id;
    lemma_first_match_is(t.messages, pm, i);
    let ps = t.messages[i].parts;
    if ps.len() > 0 {
        assert(ps.drop_last().push(ps.last()) =~= ps);
        assert(ps.update(ps.len() - 1, SpecPart::Text { text: ps.last()->Text_text + delta })
            =~= ps.drop_last().push(SpecPart::Text { text: ps.last()->Text_text + delta }));
        assert(ps.update(
            ps.len() - 1,
            SpecPart::Thinking {
                text: ps.last()->Thinking_text + delta,
                signature: ps.last()->Thinking_signature,
            },
        ) =~= ps.drop_last().push(
            SpecPart::Thinking {
                text: ps.last()->Thinking_text + delta,
                signature: ps.last()->Thinking_signature,
            },
        ));
    }
    let pc = |p: SpecPart| is_call_part(p, result.call_id);
    lemma_first_match(ps, pc);
    let c = call_index(ps, result.call_id);
    let is_result_call = |p: SpecPart| p matches SpecPart::ToolCall(x) && x.id == result.call_id;
    let qs = apply_event(t, SpecEvent::ToolCallFinished { message_id, result }).messages[i].parts;
    let fs = finish_call(ps, result.call_id);
    assert(qs == fs.push(SpecPart::ToolResult(result)));
    assert forall|k: int| 0 <= k < ps.len() implies #[trigger] qs[k] == if is_result_call(ps[k]) && forall|l: int|
        0 <= l < k ==> !is_result_call(#[trigger] ps[l]) {
        SpecPart::ToolCall(SpecToolCall { status: ToolCallStatus::Finished, ..ps[k]->ToolCall_0 })
    } else {
        ps[k]
    } by {
        assert(qs[k] == fs[k]);
        if is_result_call(ps[k]) && forall|l: int| 0 <= l < k ==> !is_result_call(#[trigger] ps[l]) {
            assert forall|l: int| 0 <= l < k implies !pc(#[trigger] ps[l]) by {
                assert(!is_result_call(ps[l]));
            }
            lemma_first_match_is(ps, pc, k);
        } else if k == c {
            assert(pc(ps[c]));
            assert(is_result_call(ps[k]));
            assert forall|l: int| 0 <= l < k implies !is_result_call(#[trigger] ps[l]) by {
                assert(!pc(ps[l]));
            }
        }
    }
}

/// The message a delta, a call or a result is for.
pub open spec fn part_event_message(e: SpecEvent) -> Option<Seq<char>> {
    match e {
        SpecEvent::TextDelta { message_id, .. } => Some(message_id),
        SpecEvent::ThinkingDelta { message_id, .. } => Some(message_id),
        SpecEvent::ToolCallStarted { message_id, .. } => Some(message_id),
        SpecEvent::ToolCallUpdated { message_id, .. } => Some(message_id),
        SpecEvent::ToolCallFinished { message_id, .. } => Some(message_id),
        _ => None,
    }
}

/// A delta, a call or a result for a message the thread does not hold changes nothing.
pub proof fn lemma_unknown_message_is_left_alone(t: SpecThread, e: SpecEvent)
    requires
        part_event_message(e) matches Some(id) && forall|j: int|
            0 <= j < t.messages.len() ==> (#[trigger] t.messages[j]).id != id,
    ensures
        apply_event(t, e) == t,
{
    let id = part_event_message(e)->0;
    lemma_first_match(t.messages, |m: SpecMessage| m.id == id);
    assert(apply_event(t, e).messages =~= t.messages);
}

/// Rewriting one message's parts leaves every message id where it was.
pub proof fn lemma_update_parts_keeps_index(
    messages: Seq<SpecMessage>,
    id: Seq<char>,
    f: spec_fn(Seq<SpecPart>) -> Seq<SpecPart>,
    other: Seq<char>,
)
    ensures
        message_index(update_parts(messages, id, f), other) == message_index(messages, other),
{
    let updated = update_parts(messages, id, f);
    let p = |m: SpecMessage| m.id == other;
    lemma_first_match(messages, |m: SpecMessage| m.id == id);
    lemma_first_match(messages, p);
    assert(updated.len() == messages.len());
    assert forall|j: int| 0 <= j < messages.len() implies #[trigger] updated[j].id
        == messages[j].id by {}
    lemma_first_match_is(updated, p, first_match(messages, p));
}

/// Adjacent text deltas for one message coalesce: applying `a` then `b` is applying
/// their concatenation.
pub proof fn lemma_text_deltas_coalesce(
    t: SpecThread,
    message_id: Seq<char>,
    a: Seq<char>,
    b: Seq<char>,
)
    ensures
        apply_event(
            apply_event(t, SpecEvent::TextDelta { message_id, delta: a }),
            SpecEvent::TextDelta { message_id, delta: b },
        ) == apply_event(t, SpecEvent::TextDelta { message_id, delta: a + b }),
{
    let fa = |ps: Seq<SpecPart>| push_text(ps, a);
    let fb = |ps: Seq<SpecPart>| push_text(ps, b);
    let fab = |ps: Seq<SpecPart>| push_text(ps, a + b);
    let t1 = apply_event(t, SpecEvent::TextDelta { message_id, delta: a });
    let t2 = apply_event(t1, SpecEvent::TextDelta { message_id, delta: b });
    let t3 = apply_event(t, SpecEvent::TextDelta { message_id, delta: a + b });
    lemma_update_parts_keeps_index(t.messages, message_id, fa, message_id);
    let i = message_index(t.messages, message_id);
    lemma_first_match(t.messages, |m: SpecMessage| m.id == message_id);
    if i < t.messages.len() {
        let ps = t.messages[i].parts;
        let once = push_text(ps, a);
        assert(once.len() > 0);
        assert(once.last() is Text);
        if ps.len() > 0 && ps.last() is Text {
            let text = ps.last()->Text_text;
            assert(text + a + b =~= text + (a + b));
            assert(push_text(once, b) =~= push_text(ps, a + b));
        } else {
            assert(push_text(once, b) =~= push_text(ps, a + b));
        }
        assert(t2.messages =~= t3.messages);
    } else {
        assert(t2.messages =~= t3.messages);
    }
}

} // verus!

verus! {

/// The thread after a sequence of events, applied in order.
pub open spec fn apply_events(t: SpecThread, events: Seq<SpecEvent>) -> SpecThread
    decreases events.len(),
{
    if events.len() == 0 {
        t
    } else {
        apply_events(apply_event(t, events[0]), events.drop_first())
    }
}

/// Applying two sequences of events is applying their concatenation.
pub proof fn lemma_apply_events_concat(t: SpecThread, a: Seq<SpecEvent>, b: Seq<SpecEvent>)
    ensures
        apply_events(t, a + b) == apply_events(apply_events(t, a), b),
    decreases a.len(),
{
    if a.len() > 0 {
        assert((a + b).drop_first() =~= a.drop_first() + b);
        assert((a + b)[0] == a[0]);
        lemma_apply_events_concat(apply_event(t, a[0]), a.drop_first(), b);
    } else {
        assert(a + b =~= b);
    }
}

} // verus!
