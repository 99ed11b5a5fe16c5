//! Mapping Agent Client Protocol updates onto assistant events.

use vstd::prelude::*;

use crate::model::{
    events_view, AssistantEvent, Message, MessageId, Role, SpecEvent, SpecMessage, SpecPart,
    SpecThread,
    SpecToolCall, SpecToolResult, ToolCall, ToolResult,
    opt_str, options_view, PermissionOption, PermissionOptionId, PermissionOptionKind, PermissionRequest,
    PermissionRequestId, SpecPermissionOption, SpecPermissionRequest, ToolCallId, ToolCallStatus,
};
use crate::protocol::{
    AgentPermissionOption, AgentPermissionOptionKind, AgentPermissionRequest, AgentToolCall,
    AgentToolCallStatus, AgentToolCallUpdate, ContentBlock, SessionUpdate, StopReason, TerminalRequest, ToolCallContent,
};
use crate::seqs::{first_match, lemma_first_match, lemma_first_match_is};
use crate::thread::{
    apply_event, apply_events, lemma_apply_events_concat, lemma_update_parts_keeps_index,
    message_index, push_text,
};
use crate::text::{decimal, join, join_strings, lemma_numbered_distinct, push_decimal, strings_view};

verus! {

/// What a content block reads as.
pub open spec fn spec_content_text(content: ContentBlock) -> Seq<char> {
    match content {
        ContentBlock::Text(text) => text@,
        ContentBlock::Image => "[image]"@,
        ContentBlock::Audio => "[audio]"@,
        ContentBlock::Other => "["@ + spec_block_label(content) + "]"@,
    }
}

pub open spec fn spec_block_label(content: ContentBlock) -> Seq<char> {
    match content {
        ContentBlock::Text(_) => "text"@,
        ContentBlock::Image => "image"@,
        ContentBlock::Audio => "audio"@,
        ContentBlock::Other => "unsupported content"@,
    }
}

/// What one piece of tool call content reads as.
pub open spec fn spec_tool_call_content_text(content: ToolCallContent) -> Seq<char> {
    match content {
        ToolCallContent::Content(block) => spec_content_text(block),
        ToolCallContent::Diff { path, new_text } => path@ + "\n"@ + new_text@,
        ToolCallContent::Terminal { output } => match output {
            Some(text) => text@,
            None => Seq::empty(),
        },
        ToolCallContent::Other => "[unsupported tool content]"@,
    }
}

/// The pieces that are not empty, in order.
pub open spec fn non_empty_pieces(pieces: Seq<Seq<char>>) -> Seq<Seq<char>>
    decreases pieces.len(),
{
    if pieces.len() == 0 {
        pieces
    } else if pieces.last().len() > 0 {
        non_empty_pieces(pieces.drop_last()).push(pieces.last())
    } else {
        non_empty_pieces(pieces.drop_last())
    }
}

/// The texts of a call's content that are not empty, one per line.
pub open spec fn spec_content_output(content: Seq<ToolCallContent>) -> Seq<char> {
    join(non_empty_pieces(content.map_values(|c: ToolCallContent| spec_tool_call_content_text(c))), "\n"@)
}

pub open spec fn spec_tool_call_status(status: AgentToolCallStatus) -> ToolCallStatus {
    match status {
        AgentToolCallStatus::Pending => ToolCallStatus::Pending,
        AgentToolCallStatus::InProgress => ToolCallStatus::Running,
        AgentToolCallStatus::Completed => ToolCallStatus::Finished,
        AgentToolCallStatus::Failed => ToolCallStatus::Failed,
        AgentToolCallStatus::Unknown => ToolCallStatus::Pending,
    }
}

/// An unknown kind is never styled as an allow button.
pub open spec fn spec_permission_option_kind(kind: AgentPermissionOptionKind) -> PermissionOptionKind {
    match kind {
        AgentPermissionOptionKind::AllowOnce => PermissionOptionKind::AllowOnce,
        AgentPermissionOptionKind::AllowAlways => PermissionOptionKind::AllowAlways,
        AgentPermissionOptionKind::RejectOnce => PermissionOptionKind::RejectOnce,
        AgentPermissionOptionKind::RejectAlways => PermissionOptionKind::RejectAlways,
        AgentPermissionOptionKind::Unknown => PermissionOptionKind::RejectOnce,
    }
}

/// The error a stop reason reports, if it reports one.
pub open spec fn spec_stop_reason_error(stop_reason: StopReason) -> Option<Seq<char>> {
    match stop_reason {
        StopReason::EndTurn => None,
        StopReason::Cancelled => None,
        StopReason::MaxTokens => Some("The agent reached its token limit"@),
        StopReason::MaxTurnRequests => Some("The agent reached its request limit"@),
        StopReason::Refusal => Some("The agent refused to continue"@),
        StopReason::Other(name) => Some("The agent stopped: "@ + name@),
    }
}

/// The whole command line of a terminal request.
pub open spec fn spec_terminal_label(request: TerminalRequest) -> Seq<char> {
    join(seq![request.command@] + strings_view(request.args@), " "@)
}

pub open spec fn option_view(option: AgentPermissionOption) -> SpecPermissionOption {
    SpecPermissionOption {
        id: option.id@,
        name: option.name@,
        kind: spec_permission_option_kind(option.kind),
    }
}

/// The request the user sees for an agent's permission request.
pub open spec fn spec_permission_request(
    id: Seq<char>,
    label: Seq<char>,
    request: AgentPermissionRequest,
) -> SpecPermissionRequest {
    SpecPermissionRequest {
        id,
        label,
        call_id: Some(request.tool_call_id@),
        options: request.options@.map_values(|o: AgentPermissionOption| option_view(o)),
    }
}

// ---------------------------------------------------------------------------
// Implementation
// ---------------------------------------------------------------------------

pub fn block_label(content: &ContentBlock) -> (res: &'static str)
    ensures
        res@ == spec_block_label(*content),
{
    match content {
        ContentBlock::Text(_) => "text",
        ContentBlock::Image => "image",
        ContentBlock::Audio => "audio",
        ContentBlock::Other => "unsupported content",
    }
}

pub fn content_text(content: &ContentBlock) -> (res: String)
    ensures
        res@ == spec_content_text(*content),
{
    match content {
        ContentBlock::Text(text) => text.clone(),
        ContentBlock::Image => "[image]".to_owned(),
        ContentBlock::Audio => "[audio]".to_owned(),
        ContentBlock::Other => {
            let mut res = "[".to_owned();
            res.append(block_label(content));
            res.append("]");
            res
        },
    }
}


pub fn tool_call_content_text(content: &ToolCallContent) -> (res: String)
    ensures
        res@ == spec_tool_call_content_text(*content),
{
    match content {
        ToolCallContent::Content(block) => content_text(block),
        ToolCallContent::Diff { path, new_text } => {
            let mut res = path.clone();
            res.append("\n");
            res.append(new_text.as_str());
            res
        },
        // The agent embeds a terminal by id; this client runs it and captured its output.
        ToolCallContent::Terminal { output } => match output {
            Some(text) => text.clone(),
            None => String::new(),
        },
        ToolCallContent::Other => "[unsupported tool content]".to_owned(),
    }
}

/// The texts of a call's content that are not empty, one per line.
pub fn content_output(content: &Vec<ToolCallContent>) -> (res: String)
    ensures
        res@ == spec_content_output(content@),
{
    let ghost texts = content@.map_values(|c: ToolCallContent| spec_tool_call_content_text(c));
    let mut lines: Vec<String> = Vec::new();
    let mut i: usize = 0;
    while i < content.len()
        invariant
            0 <= i <= content.len(),
            texts == content@.map_values(|c: ToolCallContent| spec_tool_call_content_text(c)),
            strings_view(lines@) == non_empty_pieces(texts.take(i as int)),
        decreases content.len() - i,
    {
        let text = tool_call_content_text(&content[i]);
        assert(texts.take(i + 1).drop_last() =~= texts.take(i as int));
        assert(texts.take(i + 1).last() == text@);
        if !text.as_str().is_empty() {
            let ghost before = lines@;
            lines.push(text);
            assert(strings_view(lines@) =~= strings_view(before).push(lines@.last()@));
        }
        i = i + 1;
    }
    assert(texts.take(content.len() as int) =~= texts);
    join_strings(&lines, "\n")
}


pub fn tool_call_status(status: AgentToolCallStatus) -> (res: ToolCallStatus)
    ensures
        res == spec_tool_call_status(status),
{
    match status {
        AgentToolCallStatus::Pending => ToolCallStatus::Pending,
        AgentToolCallStatus::InProgress => ToolCallStatus::Running,
        AgentToolCallStatus::Completed => ToolCallStatus::Finished,
        AgentToolCallStatus::Failed => ToolCallStatus::Failed,
        AgentToolCallStatus::Unknown => ToolCallStatus::Pending,
    }
}

pub fn permission_option_kind(kind: AgentPermissionOptionKind) -> (res: PermissionOptionKind)
    ensures
        res == spec_permission_option_kind(kind),
{
    match kind {
        AgentPermissionOptionKind::AllowOnce => PermissionOptionKind::AllowOnce,
        AgentPermissionOptionKind::AllowAlways => PermissionOptionKind::AllowAlways,
        AgentPermissionOptionKind::RejectOnce => PermissionOptionKind::RejectOnce,
        AgentPermissionOptionKind::RejectAlways => PermissionOptionKind::RejectAlways,
        AgentPermissionOptionKind::Unknown => PermissionOptionKind::RejectOnce,
    }
}

pub fn stop_reason_error(stop_reason: &StopReason) -> (res: Option<String>)
    ensures
        opt_str(res) == spec_stop_reason_error(*stop_reason),
{
    match stop_reason {
        StopReason::EndTurn => None,
        StopReason::Cancelled => None,
        StopReason::MaxTokens => Some("The agent reached its token limit".to_owned()),
        StopReason::MaxTurnRequests => Some("The agent reached its request limit".to_owned()),
        StopReason::Refusal => Some("The agent refused to continue".to_owned()),
        StopReason::Other(name) => {
            let mut message = "The agent stopped: ".to_owned();
            message.append(name.as_str());
            Some(message)
        },
    }
}

/// What the user reads before allowing a command to run, so it shows the whole thing.
pub fn terminal_label(request: &TerminalRequest) -> (res: String)
    ensures
        res@ == spec_terminal_label(*request),
{
    let mut words: Vec<String> = Vec::new();
    words.push(request.command.clone());
    let mut i: usize = 0;
    while i < request.args.len()
        invariant
            0 <= i <= request.args.len(),
            strings_view(words@) == seq![request.command@] + strings_view(request.args@.take(i as int)),
        decreases request.args.len() - i,
    {
        let ghost before = words@;
        words.push(request.args[i].clone());
        assert(request.args@.take(i + 1) =~= request.args@.take(i as int).push(request.args@[i as int]));
        assert(strings_view(words@) =~= strings_view(before).push(request.args@[i as int]@));
        assert(strings_view(request.args@.take(i + 1)) =~= strings_view(request.args@.take(i as int)).push(request.args@[i as int]@));
        i = i + 1;
    }
    assert(request.args@.take(request.args.len() as int) =~= request.args@);
    join_strings(&words, " ")
}

/// The request the user sees for an agent's permission request.
pub fn permission_request(
    id: PermissionRequestId,
    label: String,
    request: &AgentPermissionRequest,
) -> (res: PermissionRequest)
    ensures
        res@ == spec_permission_request(id@, label@, *request),
{
    let mut options: Vec<PermissionOption> = Vec::new();
    let mut i: usize = 0;
    while i < request.options.len()
        invariant
            0 <= i <= request.options.len(),
            options_view(options@) == request.options@.take(i as int).map_values(
                |o: AgentPermissionOption| option_view(o),
            ),
        decreases request.options.len() - i,
    {
        let option = &request.options[i];
        let ghost before = options@;
        options.push(
            PermissionOption {
                id: PermissionOptionId(option.id.clone()),
                name: option.name.clone(),
                kind: permission_option_kind(option.kind),
            },
        );
        assert(request.options@.take(i + 1) =~= request.options@.take(i as int).push(*option));
        assert(options_view(options@) =~= options_view(before).push(option_view(*option)));
        i = i + 1;
    }
    assert(request.options@.take(request.options.len() as int) =~= request.options@);
    PermissionRequest {
        id,
        label,
        call_id: Some(ToolCallId(request.tool_call_id.clone())),
        options,
    }
}


// ---------------------------------------------------------------------------
// A turn: the state of one session between two prompts
// ---------------------------------------------------------------------------

/// ACP reports a call's content before it reports completion, so the latest content is
/// held here until the final update turns it into a tool result.
#[derive(Debug)]
pub struct CallState {
    pub call: ToolCall,
    pub output: String,
}

pub struct SpecCallState {
    pub call: SpecToolCall,
    pub output: Seq<char>,
}

impl View for CallState {
    type V = SpecCallState;

    open spec fn view(&self) -> SpecCallState {
        SpecCallState { call: self.call@, output: self.output@ }
    }
}

pub open spec fn calls_view(calls: Seq<CallState>) -> Seq<SpecCallState> {
    calls.map_values(|c: CallState| c@)
}

pub struct SpecTurn {
    pub session: Seq<char>,
    pub index: nat,
    pub message_id: Option<Seq<char>>,
    pub calls: Seq<SpecCallState>,
}

/// What one session's updates have built since its last prompt ended.
#[derive(Debug)]
pub struct Turn {
    session: String,
    index: u64,
    message_id: Option<MessageId>,
    calls: Vec<CallState>,
}

impl View for Turn {
    type V = SpecTurn;

    closed spec fn view(&self) -> SpecTurn {
        SpecTurn {
            session: self.session@,
            index: self.index as nat,
            message_id: match self.message_id {
                Some(id) => Some(id@),
                None => None,
            },
            calls: calls_view(self.calls@),
        }
    }
}

/// The id of the assistant message that opens turn number `index` of a session.
pub open spec fn turn_message_id(session: Seq<char>, index: nat) -> Seq<char> {
    session + "-assistant-"@ + decimal(index)
}

/// ACP has no "message started" update, so the first update of a turn that shows
/// anything opens the turn's message. Gives the turn, the events to emit, and the id.
pub open spec fn spec_open(t: SpecTurn) -> (SpecTurn, Seq<SpecEvent>, Seq<char>) {
    match t.message_id {
        Some(id) => (t, Seq::empty(), id),
        None => {
            let id = turn_message_id(t.session, t.index);
            (
                SpecTurn { message_id: Some(id), ..t },
                seq![
                    SpecEvent::MessageStarted {
                        message: SpecMessage {
                            id,
                            role: Role::Assistant,
                            parts: Seq::<SpecPart>::empty(),
                        },
                    },
                ],
                id,
            )
        },
    }
}

/// The index of the call with the given id, or `calls.len()`.
pub open spec fn call_slot(calls: Seq<SpecCallState>, id: Seq<char>) -> int {
    first_match(calls, |c: SpecCallState| c.call.id == id)
}

/// The state replaces the one held for its call, or is added.
pub open spec fn put_call(calls: Seq<SpecCallState>, state: SpecCallState) -> Seq<SpecCallState> {
    let i = call_slot(calls, state.call.id);
    if i < calls.len() {
        calls.update(i, state)
    } else {
        calls.push(state)
    }
}

/// The state held for a call, or a pending call with no name, input or output.
pub open spec fn call_snapshot(calls: Seq<SpecCallState>, id: Seq<char>) -> SpecCallState {
    let i = call_slot(calls, id);
    if i < calls.len() {
        calls[i]
    } else {
        SpecCallState {
            call: SpecToolCall {
                id,
                name: Seq::empty(),
                input: Seq::empty(),
                status: ToolCallStatus::Pending,
            },
            output: Seq::empty(),
        }
    }
}

/// A partial update merged onto the state held for its call.
pub open spec fn merge_update(state: SpecCallState, update: AgentToolCallUpdate) -> SpecCallState {
    SpecCallState {
        call: SpecToolCall {
            name: match update.title {
                Some(title) => title@,
                None => state.call.name,
            },
            status: match update.status {
                Some(status) => spec_tool_call_status(status),
                None => state.call.status,
            },
            ..state.call
        },
        output: match update.content {
            Some(content) => spec_content_output(content@),
            None => state.output,
        },
    }
}

pub open spec fn announced_call(call: AgentToolCall) -> SpecToolCall {
    SpecToolCall {
        id: call.id@,
        name: call.title@,
        input: match call.raw_input {
            Some(input) => input@,
            None => Seq::empty(),
        },
        status: spec_tool_call_status(call.status),
    }
}

pub open spec fn is_final_status(status: ToolCallStatus) -> bool {
    status == ToolCallStatus::Finished || status == ToolCallStatus::Failed
}

/// The turn after one update, and the events the update maps to.
pub open spec fn spec_apply(t: SpecTurn, update: SessionUpdate) -> (SpecTurn, Seq<SpecEvent>) {
    match update {
        SessionUpdate::AgentMessageChunk(chunk) => {
            let (t1, events, id) = spec_open(t);
            (t1, events.push(SpecEvent::TextDelta { message_id: id, delta: spec_content_text(chunk) }))
        },
        SessionUpdate::AgentThoughtChunk(chunk) => {
            let (t1, events, id) = spec_open(t);
            (
                t1,
                events.push(
                    SpecEvent::ThinkingDelta { message_id: id, delta: spec_content_text(chunk) },
                ),
            )
        },
        SessionUpdate::ToolCall(call) => {
            let (t1, events, id) = spec_open(t);
            let started = announced_call(call);
            let state = SpecCallState { call: started, output: spec_content_output(call.content@) };
            (
                SpecTurn { calls: put_call(t1.calls, state), ..t1 },
                events.push(SpecEvent::ToolCallStarted { message_id: id, call: started }),
            )
        },
        SessionUpdate::ToolCallUpdate(update) => {
            let (t1, events, id) = spec_open(t);
            let state = merge_update(call_snapshot(t1.calls, update.id@), update);
            let updated = events.push(SpecEvent::ToolCallUpdated { message_id: id, call: state.call });
            (
                SpecTurn { calls: put_call(t1.calls, state), ..t1 },
                if is_final_status(state.call.status) {
                    updated.push(
                        SpecEvent::ToolCallFinished {
                            message_id: id,
                            result: SpecToolResult {
                                call_id: update.id@,
                                output: state.output,
                                is_error: state.call.status == ToolCallStatus::Failed,
                            },
                        },
                    )
                } else {
                    updated
                },
            )
        },
        SessionUpdate::UserMessageChunk(_) => (t, Seq::empty()),
        SessionUpdate::Other => (t, Seq::empty()),
    }
}

/// The turn is over: the next one gets a fresh message and forgets every call.
pub open spec fn spec_reset(t: SpecTurn) -> SpecTurn {
    SpecTurn {
        message_id: None,
        calls: Seq::empty(),
        index: if t.index < u64::MAX { t.index + 1 } else { 0 },
        ..t
    }
}

/// The events that end a turn for a stop reason: its error, or else the end of its
/// message if it opened one.
pub open spec fn spec_end(t: SpecTurn, stop_reason: StopReason) -> (SpecTurn, Seq<SpecEvent>) {
    (
        spec_reset(t),
        match spec_stop_reason_error(stop_reason) {
            Some(message) => seq![SpecEvent::Error { message }],
            None => match t.message_id {
                Some(id) => seq![SpecEvent::MessageFinished { message_id: id }],
                None => Seq::empty(),
            },
        },
    )
}

impl Turn {
    pub fn new(session: &str) -> (res: Self)
        ensures
            res@ == (SpecTurn {
                session: session@,
                index: 0,
                message_id: None,
                calls: Seq::empty(),
            }),
    {
        let res = Turn { session: session.to_owned(), index: 0, message_id: None, calls: Vec::new() };
        assert(res@.calls =~= Seq::<SpecCallState>::empty());
        res
    }

    /// The session the turn belongs to.
    pub fn session(&self) -> (res: &String)
        ensures
            res@ == self@.session,
    {
        &self.session
    }

    fn call_slot(&self, id: &String) -> (res: usize)
        ensures
            res == call_slot(self@.calls, id@),
    {
        let mut i: usize = 0;
        while i < self.calls.len()
            invariant
                0 <= i <= self.calls.len(),
                forall|j: int| 0 <= j < i ==> (#[trigger] self@.calls[j]).call.id != id@,
            ensures
                0 <= i <= self.calls.len(),
                forall|j: int| 0 <= j < i ==> (#[trigger] self@.calls[j]).call.id != id@,
                i < self.calls.len() ==> self@.calls[i as int].call.id == id@,
            decreases self.calls.len() - i,
        {
            assert(self@.calls[i as int] == self.calls@[i as int]@);
            if self.calls[i].call.id.0 == *id {
                break;
            }
            i = i + 1;
        }
        proof {
            lemma_first_match_is(self@.calls, |c: SpecCallState| c.call.id == id@, i as int);
        }
        i
    }

    /// Opens the turn's message if it is not open yet, and gives its id.
    pub fn open(&mut self, events: &mut Vec<AssistantEvent>) -> (res: MessageId)
        ensures
            final(self)@ == spec_open(old(self)@).0,
            events_view(final(events)@) == events_view(old(events)@) + spec_open(old(self)@).1,
            res@ == spec_open(old(self)@).2,
    {
        let ghost before = events@;
        match &self.message_id {
            Some(message_id) => {
                assert(events_view(events@) =~= events_view(before) + Seq::<SpecEvent>::empty());
                return message_id.clone();
            },
            None => {},
        }
        let mut id = self.session.clone();
        id.append("-assistant-");
        push_decimal(&mut id, self.index);
        events.push(AssistantEvent::MessageStarted { message: Message::new(id.as_str(), Role::Assistant) });
        self.message_id = Some(MessageId(id.clone()));
        assert(events_view(events@) =~= events_view(before) + spec_open(old(self)@).1);
        MessageId(id)
    }
}


impl Turn {
    /// The events that one update maps to.
    pub fn apply(&mut self, update: SessionUpdate) -> (events: Vec<AssistantEvent>)
        ensures
            (final(self)@, events_view(events@)) == spec_apply(old(self)@, update),
    {
        let ghost old_view = self@;
        let ghost u = update;
        let mut events: Vec<AssistantEvent> = Vec::new();
        match update {
            SessionUpdate::AgentMessageChunk(chunk) => {
                let message_id = self.open(&mut events);
                events.push(AssistantEvent::TextDelta { message_id, delta: content_text(&chunk) });
            },
            SessionUpdate::AgentThoughtChunk(chunk) => {
                let message_id = self.open(&mut events);
                events.push(AssistantEvent::ThinkingDelta { message_id, delta: content_text(&chunk) });
            },
            SessionUpdate::ToolCall(call) => {
                let message_id = self.open(&mut events);
                let ghost opened = self@;
                let output = content_output(&call.content);
                let input = match call.raw_input {
                    Some(input) => input,
                    None => String::new(),
                };
                let started = ToolCall {
                    id: ToolCallId(call.id),
                    name: call.title,
                    input,
                    status: tool_call_status(call.status),
                };
                let slot = self.call_slot(&started.id.0);
                let state = CallState { call: started.clone(), output };
                let ghost sv = state@;
                proof {
                    lemma_first_match(opened.calls, |c: SpecCallState| c.call.id == sv.call.id);
                }
                if slot < self.calls.len() {
                    self.calls.set(slot, state);
                } else {
                    self.calls.push(state);
                }
                assert(self@.calls =~= put_call(opened.calls, sv));
                events.push(AssistantEvent::ToolCallStarted { message_id, call: started });
            },
            SessionUpdate::ToolCallUpdate(update) => {
                let message_id = self.open(&mut events);
                let ghost opened = self@;
                let slot = self.call_slot(&update.id);
                proof {
                    lemma_first_match(opened.calls, |c: SpecCallState| c.call.id == update.id@);
                }
                if slot == self.calls.len() {
                    let call_id = ToolCallId(update.id.clone());
                    self.calls.push(CallState {
                        call: ToolCall {
                            id: call_id,
                            name: String::new(),
                            input: String::new(),
                            status: ToolCallStatus::Pending,
                        },
                        output: String::new(),
                    });
                }
                let ghost snapshot = self.calls@[slot as int]@;
                assert(snapshot == call_snapshot(opened.calls, update.id@));
                let state = &mut self.calls[slot];
                match update.title {
                    Some(title) => {
                        state.call.name = title;
                    },
                    None => {},
                }
                match update.status {
                    Some(status) => {
                        state.call.status = tool_call_status(status);
                    },
                    None => {},
                }
                match &update.content {
                    Some(content) => {
                        state.output = content_output(content);
                    },
                    None => {},
                }
                let call = state.call.clone();
                let finished = state.call.status == ToolCallStatus::Finished || state.call.status
                    == ToolCallStatus::Failed;
                let is_error = state.call.status == ToolCallStatus::Failed;
                let output = state.output.clone();
                events.push(AssistantEvent::ToolCallUpdated { message_id: message_id.clone(), call });
                if finished {
                    events.push(
                        AssistantEvent::ToolCallFinished {
                            message_id,
                            result: ToolResult { call_id: ToolCallId(update.id), output, is_error },
                        },
                    );
                }
            },
            SessionUpdate::UserMessageChunk(_) => {},
            SessionUpdate::Other => {},
        }
        proof {
            assert(events_view(events@) =~= spec_apply(old_view, u).1);
            assert(self@.calls =~= spec_apply(old_view, u).0.calls);
        }
        events
    }
}


impl Turn {
    /// Ends the turn for a stop reason: reports its error, or else ends its message.
    pub fn end(&mut self, stop_reason: StopReason) -> (events: Vec<AssistantEvent>)
        ensures
            (final(self)@, events_view(events@)) == spec_end(old(self)@, stop_reason),
    {
        let mut events: Vec<AssistantEvent> = Vec::new();
        match stop_reason_error(&stop_reason) {
            Some(message) => {
                events.push(AssistantEvent::Error { message });
            },
            None => match &self.message_id {
                Some(message_id) => {
                    events.push(AssistantEvent::MessageFinished { message_id: message_id.clone() });
                },
                None => {},
            },
        }
        self.reset();
        assert(events_view(events@) =~= spec_end(old(self)@, stop_reason).1);
        events
    }

    /// Ends the turn with an error.
    pub fn fail(&mut self, message: String) -> (events: Vec<AssistantEvent>)
        ensures
            final(self)@ == spec_reset(old(self)@),
            events_view(events@) == seq![SpecEvent::Error { message: message@ }],
    {
        self.reset();
        let mut events: Vec<AssistantEvent> = Vec::new();
        events.push(AssistantEvent::Error { message });
        assert(events_view(events@) =~= seq![SpecEvent::Error { message: message@ }]);
        events
    }

    /// The name of a call this turn has seen, unless it is unknown or empty.
    pub fn call_name(&self, call_id: &ToolCallId) -> (res: Option<String>)
        ensures
            opt_str(res) == ({
                let i = call_slot(self@.calls, call_id@);
                if i < self@.calls.len() && self@.calls[i].call.name.len() > 0 {
                    Some(self@.calls[i].call.name)
                } else {
                    None
                }
            }),
    {
        let slot = self.call_slot(&call_id.0);
        if slot < self.calls.len() {
            assert(self@.calls[slot as int] == self.calls@[slot as int]@);
            let name = &self.calls[slot].call.name;
            if !name.as_str().is_empty() {
                return Some(name.clone());
            }
        }
        None
    }

    fn reset(&mut self)
        ensures
            final(self)@ == spec_reset(old(self)@),
    {
        self.message_id = None;
        self.calls.clear();
        self.index = self.index.wrapping_add(1);
        assert(self@.calls =~= Seq::<SpecCallState>::empty());
    }
}


// ---------------------------------------------------------------------------
// Laws
// ---------------------------------------------------------------------------

/// The message an event addresses, if it addresses one.
pub open spec fn event_message_id(e: SpecEvent) -> Option<Seq<char>> {
    match e {
        SpecEvent::MessageStarted { message } => Some(message.id),
        SpecEvent::TextDelta { message_id, .. } => Some(message_id),
        SpecEvent::ThinkingDelta { message_id, .. } => Some(message_id),
        SpecEvent::ToolCallStarted { message_id, .. } => Some(message_id),
        SpecEvent::ToolCallUpdated { message_id, .. } => Some(message_id),
        SpecEvent::ToolCallFinished { message_id, .. } => Some(message_id),
        SpecEvent::MessageFinished { message_id } => Some(message_id),
        _ => None,
    }
}

pub open spec fn shows_something(update: SessionUpdate) -> bool {
    !(update is UserMessageChunk) && !(update is Other)
}

/// One message per turn: an update that shows something opens the turn's message if it
/// is not open yet (and only then emits `MessageStarted`, first), and every event it maps
/// to addresses that message. User chunks and unknown updates map to nothing.
pub proof fn lemma_apply_addresses_turn_message(t: SpecTurn, update: SessionUpdate)
    ensures
        ({
            let (t1, events) = spec_apply(t, update);
            let id = match t.message_id {
                Some(id) => id,
                None => turn_message_id(t.session, t.index),
            };
            if shows_something(update) {
                &&& t1.message_id == Some(id)
                &&& t1.session == t.session && t1.index == t.index
                &&& events.len() > 0
                &&& (events[0] is MessageStarted <==> t.message_id is None)
                &&& forall|k: int| 0 < k < events.len() ==> !(#[trigger] events[k] is MessageStarted)
                &&& forall|k: int| 0 <= k < events.len() ==> event_message_id(#[trigger] events[k]) == Some(id)
            } else {
                t1 == t && events.len() == 0
            }
        }),
{
}

/// Each turn opens its own message: ending a turn moves the next message to a new id.
pub proof fn lemma_turns_open_distinct_messages(t: SpecTurn, stop_reason: StopReason)
    requires
        t.index < u64::MAX,
    ensures
        turn_message_id(spec_end(t, stop_reason).0.session, spec_end(t, stop_reason).0.index)
            != turn_message_id(t.session, t.index),
{
    lemma_numbered_distinct(t.session + "-assistant-"@, t.index + 1, t.index);
}

/// Content that an update reports survives into the result of a later update that
/// finishes the call without content of its own.
pub proof fn lemma_reported_content_survives(
    t: SpecTurn,
    first: AgentToolCallUpdate,
    last: AgentToolCallUpdate,
)
    requires
        first.id == last.id,
        first.content is Some,
        last.content is None,
        last.status matches Some(status) && is_final_status(spec_tool_call_status(status)),
    ensures
        ({
            let (t1, _) = spec_apply(t, SessionUpdate::ToolCallUpdate(first));
            let (_, events) = spec_apply(t1, SessionUpdate::ToolCallUpdate(last));
            events.last() matches SpecEvent::ToolCallFinished { result, .. }
                && result.output == spec_content_output(first.content->0@)
                && result.call_id == first.id@
        }),
{
    let (t0, _, _) = spec_open(t);
    let p = |c: SpecCallState| c.call.id == first.id@;
    lemma_first_match(t0.calls, p);
    let state = merge_update(call_snapshot(t0.calls, first.id@), first);
    let calls = put_call(t0.calls, state);
    let (t1, _) = spec_apply(t, SessionUpdate::ToolCallUpdate(first));
    assert(t1.calls == calls);
    let (t2, _, _) = spec_open(t1);
    assert(t2.calls == calls);
    let i = call_slot(t0.calls, first.id@);
    if i < t0.calls.len() {
        lemma_first_match_is(calls, p, i);
    } else {
        assert forall|j: int| 0 <= j < t0.calls.len() implies !p(#[trigger] calls[j]) by {
            assert(calls[j] == t0.calls[j]);
        }
        lemma_first_match_is(calls, p, t0.calls.len() as int);
    }
    assert(call_snapshot(t2.calls, last.id@) == state);
}

/// The text chunks of a turn build one assistant message: two chunks mapped in a row and
/// applied to a thread that does not hold the turn's message yet append that message,
/// holding one text part with both chunks' text.
pub proof fn lemma_chunks_build_one_message(
    thread: SpecThread,
    turn: SpecTurn,
    a: ContentBlock,
    b: ContentBlock,
)
    requires
        turn.message_id is None,
        message_index(thread.messages, turn_message_id(turn.session, turn.index))
            == thread.messages.len(),
    ensures
        ({
            let (turn1, first) = spec_apply(turn, SessionUpdate::AgentMessageChunk(a));
            let (_, second) = spec_apply(turn1, SessionUpdate::AgentMessageChunk(b));
            apply_events(thread, first + second).messages == thread.messages.push(
                SpecMessage {
                    id: turn_message_id(turn.session, turn.index),
                    role: Role::Assistant,
                    parts: seq![SpecPart::Text { text: spec_content_text(a) + spec_content_text(b) }],
                },
            )
        }),
{
    let id = turn_message_id(turn.session, turn.index);
    let (turn1, first) = spec_apply(turn, SessionUpdate::AgentMessageChunk(a));
    let (_, second) = spec_apply(turn1, SessionUpdate::AgentMessageChunk(b));
    let ta = spec_content_text(a);
    let tb = spec_content_text(b);
    lemma_apply_events_concat(thread, first, second);
    let started = SpecMessage { id, role: Role::Assistant, parts: Seq::<SpecPart>::empty() };
    let t1 = apply_event(thread, first[0]);
    assert(t1.messages == thread.messages.push(started));
    let p = |m: SpecMessage| m.id == id;
    lemma_first_match(thread.messages, p);
    lemma_first_match_is(t1.messages, p, thread.messages.len() as int);
    let t2 = apply_event(t1, first[1]);
    assert(push_text(Seq::<SpecPart>::empty(), ta) =~= seq![SpecPart::Text { text: ta }]);
    assert(first.drop_first().drop_first() =~= Seq::<SpecEvent>::empty());
    assert(first.drop_first()[0] == first[1]);
    assert(apply_events(thread, first) == apply_events(t1, first.drop_first()));
    assert(apply_events(t1, first.drop_first()) == apply_events(t2, first.drop_first().drop_first()));
    assert(apply_events(thread, first) == t2);
    lemma_update_parts_keeps_index(t1.messages, id, |ps: Seq<SpecPart>| push_text(ps, ta), id);
    let t3 = apply_event(t2, second[0]);
    assert(second.drop_first() =~= Seq::<SpecEvent>::empty());
    assert(apply_events(t2, second) == apply_events(t3, second.drop_first()));
    assert(push_text(seq![SpecPart::Text { text: ta }], tb) =~= seq![SpecPart::Text { text: ta + tb }]);
    assert(t3.messages =~= thread.messages.push(
        SpecMessage { id, role: Role::Assistant, parts: seq![SpecPart::Text { text: ta + tb }] },
    ));
}


/// A final update of a tool call: one that reports it finished or failed.
pub open spec fn is_final_update(e: SpecEvent) -> bool {
    e matches SpecEvent::ToolCallUpdated { call, .. } && is_final_status(call.status)
}

/// `next` reports the result of the call that `update` updates, as an error exactly
/// when the call failed.
pub open spec fn finishes(update: SpecEvent, next: SpecEvent) -> bool {
    match (update, next) {
        (SpecEvent::ToolCallUpdated { call, .. }, SpecEvent::ToolCallFinished { result, .. }) => {
            result.call_id == call.id && result.is_error == (call.status == ToolCallStatus::Failed)
        },
        _ => false,
    }
}

/// A `ToolCallFinished` comes right after each final update, for that call, and
/// nowhere else.
pub open spec fn finishes_follow_final_updates(events: Seq<SpecEvent>) -> bool {
    &&& forall|k: int|
        0 <= k < events.len() && (#[trigger] events[k] is ToolCallFinished) ==> 0 < k
            && is_final_update(events[k - 1])
    &&& forall|k: int|
        0 <= k < events.len() && #[trigger] is_final_update(events[k]) ==> k + 1 < events.len()
            && finishes(events[k], events[k + 1])
}

/// The events of a run of updates on a turn whose message is `id`: each addresses that
/// message, and the run starts it (first, and only there) exactly when `opens`.
pub open spec fn run_events(events: Seq<SpecEvent>, id: Seq<char>, opens: bool) -> bool {
    &&& forall|k: int| 0 <= k < events.len() ==> event_message_id(#[trigger] events[k]) == Some(id)
    &&& forall|k: int|
        0 <= k < events.len() ==> ((#[trigger] events[k] is MessageStarted) <==> (k == 0 && opens))
    &&& (opens && events.len() > 0 ==> events[0] == SpecEvent::MessageStarted {
        message: SpecMessage { id, role: Role::Assistant, parts: Seq::<SpecPart>::empty() },
    })
    &&& finishes_follow_final_updates(events)
}

/// The turn after a run of updates, and the events they map to, in order.
pub open spec fn spec_apply_all(t: SpecTurn, updates: Seq<SessionUpdate>) -> (SpecTurn, Seq<SpecEvent>)
    decreases updates.len(),
{
    if updates.len() == 0 {
        (t, Seq::empty())
    } else {
        let (t1, first) = spec_apply(t, updates[0]);
        let (t2, rest) = spec_apply_all(t1, updates.drop_first());
        (t2, first + rest)
    }
}

/// One call on a turn: an update, an end for a stop reason, or a failure.
pub enum TurnStep {
    Update(SessionUpdate),
    End(StopReason),
    Fail(Seq<char>),
}

/// The turn after one call, and the events it gives (`Turn::apply`, `Turn::end`,
/// `Turn::fail`).
pub open spec fn spec_step(t: SpecTurn, step: TurnStep) -> (SpecTurn, Seq<SpecEvent>) {
    match step {
        TurnStep::Update(update) => spec_apply(t, update),
        TurnStep::End(stop_reason) => spec_end(t, stop_reason),
        TurnStep::Fail(message) => (spec_reset(t), seq![SpecEvent::Error { message }]),
    }
}

/// The turn after a sequence of calls, and the events they give, in order.
pub open spec fn spec_steps(t: SpecTurn, steps: Seq<TurnStep>) -> (SpecTurn, Seq<SpecEvent>)
    decreases steps.len(),
{
    if steps.len() == 0 {
        (t, Seq::empty())
    } else {
        let (t1, first) = spec_step(t, steps[0]);
        let (t2, rest) = spec_steps(t1, steps.drop_first());
        (t2, first + rest)
    }
}

/// How many of the calls end the turn.
pub open spec fn turns_ended(steps: Seq<TurnStep>) -> nat
    decreases steps.len(),
{
    if steps.len() == 0 {
        0
    } else {
        (if steps[0] is Update { 0nat } else { 1nat }) + turns_ended(steps.drop_first())
    }
}

proof fn lemma_finishes_concat(a: Seq<SpecEvent>, b: Seq<SpecEvent>)
    requires
        finishes_follow_final_updates(a),
        finishes_follow_final_updates(b),
    ensures
        finishes_follow_final_updates(a + b),
{
    let c = a + b;
    assert forall|k: int| 0 <= k < c.len() && (#[trigger] c[k] is ToolCallFinished) implies 0 < k
        && is_final_update(c[k - 1]) by {
        if k < a.len() {
            assert(a[k] is ToolCallFinished);
        } else {
            assert(b[k - a.len()] is ToolCallFinished);
        }
    }
    assert forall|k: int| 0 <= k < c.len() && #[trigger] is_final_update(c[k]) implies k + 1 < c.len()
        && finishes(c[k], c[k + 1]) by {
        if k < a.len() {
            assert(is_final_update(a[k]));
        } else {
            assert(is_final_update(b[k - a.len()]));
        }
    }
}

/// The events of one update pair each final update with the result that follows it.
proof fn lemma_apply_finishes(t: SpecTurn, update: SessionUpdate)
    ensures
        finishes_follow_final_updates(spec_apply(t, update).1),
{
    let (t0, opened, id) = spec_open(t);
    let events = spec_apply(t, update).1;
    assert forall|k: int| 0 <= k < opened.len() implies (#[trigger] opened[k]) is MessageStarted by {}
    match update {
        SessionUpdate::ToolCallUpdate(u) => {
            let p = |c: SpecCallState| c.call.id == u.id@;
            lemma_first_match(t0.calls, p);
            let state = merge_update(call_snapshot(t0.calls, u.id@), u);
            assert(state.call.id == u.id@);
            let n = opened.len() as int;
            assert(events[n] == SpecEvent::ToolCallUpdated { message_id: id, call: state.call });
            assert forall|k: int| 0 <= k < events.len() && (#[trigger] events[k] is ToolCallFinished)
                implies 0 < k && is_final_update(events[k - 1]) by {
                assert(k == n + 1);
            }
            assert forall|k: int| 0 <= k < events.len() && #[trigger] is_final_update(events[k])
                implies k + 1 < events.len() && finishes(events[k], events[k + 1]) by {
                assert(k == n);
            }
        },
        _ => {
            assert forall|k: int| 0 <= k < events.len() implies !(#[trigger] events[k] is ToolCallFinished)
                && !is_final_update(events[k]) by {
                if k < opened.len() {
                    assert(events[k] == opened[k]);
                }
            }
        },
    }
}

/// The law of one turn's message over a run of updates: the run opens the turn's
/// message (the one it already has, or the one numbered by the turn's index) exactly
/// when some update shows something, and then `MessageStarted` is its first event and
/// comes nowhere else; every event addresses that message; a `ToolCallFinished` for
/// the call comes right after each update that finishes or fails it, and nowhere else.
/// The run keeps the turn's session and index.
pub proof fn lemma_run_of_updates(t: SpecTurn, updates: Seq<SessionUpdate>)
    ensures
        ({
            let (t1, events) = spec_apply_all(t, updates);
            let id = match t.message_id {
                Some(id) => id,
                None => turn_message_id(t.session, t.index),
            };
            let shows = exists|i: int| 0 <= i < updates.len() && shows_something(#[trigger] updates[i]);
            &&& t1.session == t.session
            &&& t1.index == t.index
            &&& t1.message_id == (if shows { Some(id) } else { t.message_id })
            &&& (events.len() > 0 <==> shows)
            &&& run_events(events, id, t.message_id is None)
        }),
    decreases updates.len(),
{
    let id = match t.message_id {
        Some(id) => id,
        None => turn_message_id(t.session, t.index),
    };
    if updates.len() == 0 {
        return;
    }
    let u0 = updates[0];
    let rest = updates.drop_first();
    let (t1, first) = spec_apply(t, u0);
    let (t2, later) = spec_apply_all(t1, rest);
    let events = first + later;
    lemma_apply_addresses_turn_message(t, u0);
    lemma_apply_finishes(t, u0);
    lemma_run_of_updates(t1, rest);
    let id1 = match t1.message_id {
        Some(id) => id,
        None => turn_message_id(t1.session, t1.index),
    };
    assert(id1 == id);
    let shows = exists|i: int| 0 <= i < updates.len() && shows_something(#[trigger] updates[i]);
    let shows_rest = exists|i: int| 0 <= i < rest.len() && shows_something(#[trigger] rest[i]);
    if shows_rest {
        let i = choose|i: int| 0 <= i < rest.len() && shows_something(#[trigger] rest[i]);
        assert(updates[i + 1] == rest[i]);
    }
    if shows {
        let i = choose|i: int| 0 <= i < updates.len() && shows_something(#[trigger] updates[i]);
        if i > 0 {
            assert(rest[i - 1] == updates[i]);
        }
    }
    assert(shows <==> shows_something(u0) || shows_rest);
    lemma_finishes_concat(first, later);
    assert forall|k: int| 0 <= k < events.len() implies event_message_id(#[trigger] events[k]) == Some(id)
        && ((events[k] is MessageStarted) <==> (k == 0 && t.message_id is None)) by {
        if k < first.len() {
            assert(events[k] == first[k]);
        } else {
            assert(events[k] == later[k - first.len()]);
        }
    }
    if t.message_id is None && events.len() > 0 {
        if first.len() == 0 {
            assert(events[0] == later[0]);
        } else {
            assert(events[0] == first[0]);
        }
    }
}

/// The turn after a history of calls keeps its session, counts one turn per end or
/// failure, and holds no open message when the last call ended the turn.
pub proof fn lemma_history_counts_turns(t: SpecTurn, history: Seq<TurnStep>)
    requires
        t.index + turns_ended(history) <= u64::MAX,
    ensures
        spec_steps(t, history).0.session == t.session,
        spec_steps(t, history).0.index == t.index + turns_ended(history),
        history.len() > 0 && !(history.last() is Update) ==> spec_steps(t, history).0.message_id is None,
    decreases history.len(),
{
    if history.len() > 0 {
        let (t1, _) = spec_step(t, history[0]);
        let rest = history.drop_first();
        if let TurnStep::Update(u) = history[0] {
            lemma_apply_addresses_turn_message(t, u);
        }
        lemma_history_counts_turns(t1, rest);
        if rest.len() > 0 {
            assert(rest.last() == history.last());
        }
    }
}

/// The turn law from a new turn: after a history of calls on `Turn::new(session)` that
/// ended `k` turns, the last call ending one, a run of updates maps to events about
/// the message `{session}-assistant-{k}` alone, which it opens first, once, exactly when
/// some update shows something, with a `ToolCallFinished` right after each update that
/// finishes or fails a call, and nowhere else.
pub proof fn lemma_turn_run(session: Seq<char>, history: Seq<TurnStep>, updates: Seq<SessionUpdate>)
    requires
        history.len() == 0 || !(history.last() is Update),
        turns_ended(history) <= u64::MAX,
    ensures
        ({
            let fresh = SpecTurn { session, index: 0, message_id: None, calls: Seq::empty() };
            let (t, _) = spec_steps(fresh, history);
            let (_, events) = spec_apply_all(t, updates);
            let shows = exists|i: int| 0 <= i < updates.len() && shows_something(#[trigger] updates[i]);
            &&& (events.len() > 0 <==> shows)
            &&& run_events(events, turn_message_id(session, turns_ended(history)), true)
        }),
{
    let fresh = SpecTurn { session, index: 0, message_id: None, calls: Seq::empty() };
    lemma_history_counts_turns(fresh, history);
    let (t, _) = spec_steps(fresh, history);
    lemma_run_of_updates(t, updates);
}


/// A terminal request's label is its command line: the command alone when there are
/// no arguments, and each further argument adds a space and the argument. So it always
/// begins with the command.
pub proof fn lemma_terminal_label_is_the_command_line(
    request: TerminalRequest,
    longer: TerminalRequest,
    arg: Seq<char>,
)
    requires
        longer.command@ == request.command@,
        strings_view(longer.args@) == strings_view(request.args@).push(arg),
    ensures
        request.args@.len() == 0 ==> spec_terminal_label(request) == request.command@,
        spec_terminal_label(longer) == spec_terminal_label(request) + " "@ + arg,
        spec_terminal_label(request).len() >= request.command@.len(),
        spec_terminal_label(request).take(request.command@.len() as int) == request.command@,
{
    let words = seq![request.command@] + strings_view(request.args@);
    let more = seq![longer.command@] + strings_view(longer.args@);
    if request.args@.len() == 0 {
        assert(words =~= seq![request.command@]);
    }
    assert(more =~= words.push(arg));
    assert(more.drop_last() =~= words);
    lemma_join_starts_with_first(words, " "@);
}

/// A join of words starts with the first word.
proof fn lemma_join_starts_with_first(words: Seq<Seq<char>>, sep: Seq<char>)
    requires
        words.len() > 0,
    ensures
        join(words, sep).len() >= words[0].len(),
        join(words, sep).take(words[0].len() as int) == words[0],
    decreases words.len(),
{
    if words.len() > 1 {
        lemma_join_starts_with_first(words.drop_last(), sep);
        let j = join(words.drop_last(), sep);
        assert((j + sep + words.last()).take(words[0].len() as int) =~= j.take(words[0].len() as int));
    } else {
        assert(join(words, sep).take(words[0].len() as int) =~= words[0]);
    }
}


proof fn lemma_non_empty_pieces_are_non_empty(pieces: Seq<Seq<char>>)
    ensures
        forall|k: int|
            0 <= k < non_empty_pieces(pieces).len() ==> (#[trigger] non_empty_pieces(pieces)[k]).len() > 0,
    decreases pieces.len(),
{
    if pieces.len() > 0 {
        let prev = non_empty_pieces(pieces.drop_last());
        lemma_non_empty_pieces_are_non_empty(pieces.drop_last());
        let all = non_empty_pieces(pieces);
        assert forall|k: int| 0 <= k < all.len() implies (#[trigger] all[k]).len() > 0 by {
            if k < prev.len() {
                assert(all[k] == prev[k]);
            }
        }
    }
}

/// A call's output lists the texts of its content, one per line, leaving out empty
/// ones: no content gives no output, and another piece adds nothing when its text is
/// empty, is the whole output when nothing came before, and else adds a line break and
/// its text. A diff reads as its path and its new text on the next line, a text block
/// as its text, and captured terminal output as that output.
pub proof fn lemma_content_output_lines(content: Seq<ToolCallContent>, piece: ToolCallContent)
    ensures
        spec_content_output(Seq::empty()) == Seq::<char>::empty(),
        ({
            let before = spec_content_output(content);
            let text = spec_tool_call_content_text(piece);
            spec_content_output(content.push(piece)) == if text.len() == 0 {
                before
            } else if before.len() == 0 {
                text
            } else {
                before + "\n"@ + text
            }
        }),
        piece matches ToolCallContent::Diff { path, new_text } ==> spec_tool_call_content_text(piece)
            == path@ + "\n"@ + new_text@,
        piece matches ToolCallContent::Content(ContentBlock::Text(text)) ==> spec_tool_call_content_text(
            piece,
        ) == text@,
        piece matches ToolCallContent::Terminal { output: Some(output) } ==> spec_tool_call_content_text(
            piece,
        ) == output@,
{
    let f = |c: ToolCallContent| spec_tool_call_content_text(c);
    let texts = content.map_values(f);
    let more = content.push(piece).map_values(f);
    let text = spec_tool_call_content_text(piece);
    assert(more =~= texts.push(text));
    assert(more.drop_last() =~= texts);
    assert(Seq::<ToolCallContent>::empty().map_values(f) =~= Seq::<Seq<char>>::empty());
    let kept = non_empty_pieces(texts);
    lemma_non_empty_pieces_are_non_empty(texts);
    if kept.len() > 0 {
        lemma_join_starts_with_first(kept, "\n"@);
    }
    if text.len() > 0 {
        assert(non_empty_pieces(more) == kept.push(text));
        assert(kept.push(text).drop_last() =~= kept);
        if kept.len() == 0 {
            assert(kept.push(text) =~= seq![text]);
        }
    }
}

/// The content a call is announced with becomes its result: after the turn maps the
/// announcement of call `c`, an update for `c` gives `ToolCallUpdated` with the call as
/// the update leaves it (its title and status where the update has them, else the
/// announced ones, and the announced input). Where the update finishes or fails the
/// call, a `ToolCallFinished` follows last, whose output is the update's content, or the
/// announced content where the update carries none, and which is an error exactly when
/// the call failed. Otherwise the update is the last event.
pub proof fn lemma_announced_content_becomes_result(
    t: SpecTurn,
    call: AgentToolCall,
    update: AgentToolCallUpdate,
)
    requires
        update.id@ == call.id@,
    ensures
        ({
            let (t1, _) = spec_apply(t, SessionUpdate::ToolCall(call));
            let (_, events) = spec_apply(t1, SessionUpdate::ToolCallUpdate(update));
            let updated = SpecToolCall {
                id: call.id@,
                name: match update.title {
                    Some(title) => title@,
                    None => call.title@,
                },
                input: match call.raw_input {
                    Some(input) => input@,
                    None => Seq::empty(),
                },
                status: match update.status {
                    Some(status) => spec_tool_call_status(status),
                    None => spec_tool_call_status(call.status),
                },
            };
            let output = match update.content {
                Some(content) => spec_content_output(content@),
                None => spec_content_output(call.content@),
            };
            let finished = updated.status == ToolCallStatus::Finished || updated.status
                == ToolCallStatus::Failed;
            &&& events.len() >= if finished { 2int } else { 1int }
            &&& events[events.len() - if finished { 2int } else { 1int }] matches SpecEvent::ToolCallUpdated {
                call: c,
                ..
            } && c == updated
            &&& finished ==> (events.last() matches SpecEvent::ToolCallFinished { result, .. }
                && result == (SpecToolResult {
                call_id: call.id@,
                output,
                is_error: updated.status == ToolCallStatus::Failed,
            }))
        }),
{
    let (t0, _, _) = spec_open(t);
    let p = |c: SpecCallState| c.call.id == call.id@;
    lemma_first_match(t0.calls, p);
    let state = SpecCallState { call: announced_call(call), output: spec_content_output(call.content@) };
    let calls = put_call(t0.calls, state);
    let (t1, _) = spec_apply(t, SessionUpdate::ToolCall(call));
    assert(t1.calls == calls);
    let (t2, _, _) = spec_open(t1);
    assert(t2.calls == calls);
    let i = call_slot(t0.calls, call.id@);
    if i < t0.calls.len() {
        lemma_first_match_is(calls, p, i);
    } else {
        assert forall|j: int| 0 <= j < t0.calls.len() implies !p(#[trigger] calls[j]) by {
            assert(calls[j] == t0.calls[j]);
        }
        lemma_first_match_is(calls, p, t0.calls.len() as int);
    }
    assert(call_snapshot(t2.calls, update.id@) == state);
}

} // verus!
