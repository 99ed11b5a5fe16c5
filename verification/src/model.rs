//! The thread and message model shared by every runtime and view.

use vstd::prelude::*;

verus! {

/// The view of an optional string.
pub open spec fn opt_str(o: Option<String>) -> Option<Seq<char>> {
    match o {
        Some(s) => Some(s@),
        None => None,
    }
}

#[derive(Debug, Default, PartialEq, Eq, Hash)]
pub struct ThreadId(pub String);

#[derive(Debug, Default, PartialEq, Eq, Hash)]
pub struct MessageId(pub String);

impl View for ThreadId {
    type V = Seq<char>;

    open spec fn view(&self) -> Seq<char> {
        self.0@
    }
}

impl View for MessageId {
    type V = Seq<char>;

    open spec fn view(&self) -> Seq<char> {
        self.0@
    }
}

impl Clone for ThreadId {
    fn clone(&self) -> (res: Self)
        ensures
            res == *self,
    {
        ThreadId(self.0.clone())
    }
}

impl Clone for MessageId {
    fn clone(&self) -> (res: Self)
        ensures
            res == *self,
    {
        MessageId(self.0.clone())
    }
}


#[derive(Debug, PartialEq, Eq, Hash)]
pub struct ToolCallId(pub String);

#[derive(Debug, PartialEq, Eq, Hash)]
pub struct AttachmentId(pub String);

#[derive(Debug, PartialEq, Eq, Hash)]
pub struct PermissionRequestId(pub String);

#[derive(Debug, PartialEq, Eq, Hash)]
pub struct PermissionOptionId(pub String);

impl View for ToolCallId {
    type V = Seq<char>;

    open spec fn view(&self) -> Seq<char> {
        self.0@
    }
}

impl View for AttachmentId {
    type V = Seq<char>;

    open spec fn view(&self) -> Seq<char> {
        self.0@
    }
}

impl View for PermissionRequestId {
    type V = Seq<char>;

    open spec fn view(&self) -> Seq<char> {
        self.0@
    }
}

impl View for PermissionOptionId {
    type V = Seq<char>;

    open spec fn view(&self) -> Seq<char> {
        self.0@
    }
}

impl Clone for ToolCallId {
    fn clone(&self) -> (res: Self)
        ensures
            res == *self,
    {
        ToolCallId(self.0.clone())
    }
}

impl Clone for AttachmentId {
    fn clone(&self) -> (res: Self)
        ensures
            res == *self,
    {
        AttachmentId(self.0.clone())
    }
}

impl Clone for PermissionRequestId {
    fn clone(&self) -> (res: Self)
        ensures
            res == *self,
    {
        PermissionRequestId(self.0.clone())
    }
}

impl Clone for PermissionOptionId {
    fn clone(&self) -> (res: Self)
        ensures
            res == *self,
    {
        PermissionOptionId(self.0.clone())
    }
}

/// Who wrote a message.
#[derive(Clone, Copy, Debug, PartialEq, Eq, Structural)]
pub enum Role {
    User,
    Assistant,
    System,
    Tool,
}

/// Where a tool call stands.
#[derive(Clone, Copy, Debug, PartialEq, Eq, Structural)]
pub enum ToolCallStatus {
    Pending,
    PendingApproval,
    Running,
    Finished,
    Failed,
}

#[derive(Clone, Copy, Debug, PartialEq, Eq, Structural)]
pub enum AttachmentKind {
    File,
    Directory,
    Image,
    Url,
    Selection,
    Other,
}

/// How a permission option is styled and what choosing it means.
#[derive(Clone, Copy, Debug, PartialEq, Eq, Structural)]
pub enum PermissionOptionKind {
    AllowOnce,
    AllowAlways,
    RejectOnce,
    RejectAlways,
}

#[derive(Debug, PartialEq, Eq)]
pub struct ToolCall {
    pub id: ToolCallId,
    pub name: String,
    pub input: String,
    pub status: ToolCallStatus,
}

#[derive(Clone, Debug, PartialEq, Eq)]
pub struct ToolResult {
    pub call_id: ToolCallId,
    pub output: String,
    pub is_error: bool,
}

#[derive(Clone, Debug, PartialEq, Eq)]
pub struct Attachment {
    pub id: AttachmentId,
    pub name: String,
    pub kind: AttachmentKind,
    pub content: Option<String>,
}

#[derive(Clone, Debug, PartialEq, Eq)]
pub enum MessagePart {
    Text { text: String },
    Thinking { text: String, signature: Option<String> },
    RedactedThinking { data: String },
    ToolCall(ToolCall),
    ToolResult(ToolResult),
    Attachment(Attachment),
}

#[derive(Clone, Debug, PartialEq, Eq)]
pub struct Message {
    pub id: MessageId,
    pub role: Role,
    pub parts: Vec<MessagePart>,
}

#[derive(Clone, Debug, PartialEq, Eq)]
pub struct PermissionOption {
    pub id: PermissionOptionId,
    pub name: String,
    pub kind: PermissionOptionKind,
}

/// A question the agent put to the user, answered by choosing one of `options`.
#[derive(Clone, Debug, PartialEq, Eq)]
pub struct PermissionRequest {
    pub id: PermissionRequestId,
    /// What the user reads before answering.
    pub label: String,
    /// The tool call the request is about, where there is one.
    pub call_id: Option<ToolCallId>,
    pub options: Vec<PermissionOption>,
}

/// What a thread is doing.
#[derive(Clone, Debug, Default, PartialEq, Eq)]
pub enum ThreadStatus {
    #[default]
    Idle,
    Generating,
    WaitingForApproval,
    Error { message: String },
}

#[derive(Clone, Debug, Default, PartialEq, Eq)]
pub struct Thread {
    pub id: ThreadId,
    pub messages: Vec<Message>,
    pub status: ThreadStatus,
    pub pending_permissions: Vec<PermissionRequest>,
}

#[derive(Clone, Debug, PartialEq, Eq)]
pub struct UserInput {
    pub thread_id: ThreadId,
    pub text: String,
    pub attachments: Vec<Attachment>,
}

/// One step of a runtime's answer, folded into a thread by `Thread::apply_event`.
#[allow(inconsistent_fields)]
#[derive(Clone, Debug, PartialEq, Eq)]
pub enum AssistantEvent {
    MessageStarted { message: Message },
    TextDelta { message_id: MessageId, delta: String },
    ThinkingDelta { message_id: MessageId, delta: String },
    ToolCallStarted { message_id: MessageId, call: ToolCall },
    ToolCallUpdated { message_id: MessageId, call: ToolCall },
    ToolCallFinished { message_id: MessageId, result: ToolResult },
    MessageFinished { message_id: MessageId },
    PermissionRequested { request: PermissionRequest },
    PermissionResolved { request_id: PermissionRequestId },
    Error { message: String },
}

// ---------------------------------------------------------------------------
// Mathematical models
// ---------------------------------------------------------------------------

pub struct SpecToolCall {
    pub id: Seq<char>,
    pub name: Seq<char>,
    pub input: Seq<char>,
    pub status: ToolCallStatus,
}

pub struct SpecToolResult {
    pub call_id: Seq<char>,
    pub output: Seq<char>,
    pub is_error: bool,
}

pub struct SpecAttachment {
    pub id: Seq<char>,
    pub name: Seq<char>,
    pub kind: AttachmentKind,
    pub content: Option<Seq<char>>,
}

pub enum SpecPart {
    Text { text: Seq<char> },
    Thinking { text: Seq<char>, signature: Option<Seq<char>> },
    RedactedThinking { data: Seq<char> },
    ToolCall(SpecToolCall),
    ToolResult(SpecToolResult),
    Attachment(SpecAttachment),
}

pub struct SpecMessage {
    pub id: Seq<char>,
    pub role: Role,
    pub parts: Seq<SpecPart>,
}

pub struct SpecPermissionOption {
    pub id: Seq<char>,
    pub name: Seq<char>,
    pub kind: PermissionOptionKind,
}

pub struct SpecPermissionRequest {
    pub id: Seq<char>,
    pub label: Seq<char>,
    pub call_id: Option<Seq<char>>,
    pub options: Seq<SpecPermissionOption>,
}

pub enum SpecStatus {
    Idle,
    Generating,
    WaitingForApproval,
    Error { message: Seq<char> },
}

pub struct SpecThread {
    pub id: Seq<char>,
    pub messages: Seq<SpecMessage>,
    pub status: SpecStatus,
    pub pending: Seq<SpecPermissionRequest>,
}

#[allow(inconsistent_fields)]
pub enum SpecEvent {
    MessageStarted { message: SpecMessage },
    TextDelta { message_id: Seq<char>, delta: Seq<char> },
    ThinkingDelta { message_id: Seq<char>, delta: Seq<char> },
    ToolCallStarted { message_id: Seq<char>, call: SpecToolCall },
    ToolCallUpdated { message_id: Seq<char>, call: SpecToolCall },
    ToolCallFinished { message_id: Seq<char>, result: SpecToolResult },
    MessageFinished { message_id: Seq<char> },
    PermissionRequested { request: SpecPermissionRequest },
    PermissionResolved { request_id: Seq<char> },
    Error { message: Seq<char> },
}

impl View for ToolCall {
    type V = SpecToolCall;

    open spec fn view(&self) -> SpecToolCall {
        SpecToolCall { id: self.id@, name: self.name@, input: self.input@, status: self.status }
    }
}

impl View for ToolResult {
    type V = SpecToolResult;

    open spec fn view(&self) -> SpecToolResult {
        SpecToolResult { call_id: self.call_id@, output: self.output@, is_error: self.is_error }
    }
}

impl View for Attachment {
    type V = SpecAttachment;

    open spec fn view(&self) -> SpecAttachment {
        SpecAttachment {
            id: self.id@,
            name: self.name@,
            kind: self.kind,
            content: opt_str(self.content),
        }
    }
}

impl View for MessagePart {
    type V = SpecPart;

    open spec fn view(&self) -> SpecPart {
        match self {
            MessagePart::Text { text } => SpecPart::Text { text: text@ },
            MessagePart::Thinking { text, signature } => SpecPart::Thinking {
                text: text@,
                signature: opt_str(*signature),
            },
            MessagePart::RedactedThinking { data } => SpecPart::RedactedThinking { data: data@ },
            MessagePart::ToolCall(call) => SpecPart::ToolCall(call@),
            MessagePart::ToolResult(result) => SpecPart::ToolResult(result@),
            MessagePart::Attachment(attachment) => SpecPart::Attachment(attachment@),
        }
    }
}

/// The models of a vector of parts.
pub open spec fn parts_view(parts: Seq<MessagePart>) -> Seq<SpecPart> {
    parts.map_values(|p: MessagePart| p@)
}

impl View for Message {
    type V = SpecMessage;

    open spec fn view(&self) -> SpecMessage {
        SpecMessage { id: self.id@, role: self.role, parts: parts_view(self.parts@) }
    }
}

pub open spec fn messages_view(messages: Seq<Message>) -> Seq<SpecMessage> {
    messages.map_values(|m: Message| m@)
}

impl View for PermissionOption {
    type V = SpecPermissionOption;

    open spec fn view(&self) -> SpecPermissionOption {
        SpecPermissionOption { id: self.id@, name: self.name@, kind: self.kind }
    }
}

pub open spec fn options_view(options: Seq<PermissionOption>) -> Seq<SpecPermissionOption> {
    options.map_values(|o: PermissionOption| o@)
}

pub open spec fn opt_call_id(o: Option<ToolCallId>) -> Option<Seq<char>> {
    match o {
        Some(id) => Some(id@),
        None => None,
    }
}

impl View for PermissionRequest {
    type V = SpecPermissionRequest;

    open spec fn view(&self) -> SpecPermissionRequest {
        SpecPermissionRequest {
            id: self.id@,
            label: self.label@,
            call_id: opt_call_id(self.call_id),
            options: options_view(self.options@),
        }
    }
}

pub open spec fn requests_view(requests: Seq<PermissionRequest>) -> Seq<SpecPermissionRequest> {
    requests.map_values(|r: PermissionRequest| r@)
}

impl View for ThreadStatus {
    type V = SpecStatus;

    open spec fn view(&self) -> SpecStatus {
        match self {
            ThreadStatus::Idle => SpecStatus::Idle,
            ThreadStatus::Generating => SpecStatus::Generating,
            ThreadStatus::WaitingForApproval => SpecStatus::WaitingForApproval,
            ThreadStatus::Error { message } => SpecStatus::Error { message: message@ },
        }
    }
}

impl View for Thread {
    type V = SpecThread;

    open spec fn view(&self) -> SpecThread {
        SpecThread {
            id: self.id@,
            messages: messages_view(self.messages@),
            status: self.status@,
            pending: requests_view(self.pending_permissions@),
        }
    }
}

impl View for AssistantEvent {
    type V = SpecEvent;

    open spec fn view(&self) -> SpecEvent {
        match self {
            AssistantEvent::MessageStarted { message } => SpecEvent::MessageStarted {
                message: message@,
            },
            AssistantEvent::TextDelta { message_id, delta } => SpecEvent::TextDelta {
                message_id: message_id@,
                delta: delta@,
            },
            AssistantEvent::ThinkingDelta { message_id, delta } => SpecEvent::ThinkingDelta {
                message_id: message_id@,
                delta: delta@,
            },
            AssistantEvent::ToolCallStarted { message_id, call } => SpecEvent::ToolCallStarted {
                message_id: message_id@,
                call: call@,
            },
            AssistantEvent::ToolCallUpdated { message_id, call } => SpecEvent::ToolCallUpdated {
                message_id: message_id@,
                call: call@,
            },
            AssistantEvent::ToolCallFinished { message_id, result } => SpecEvent::ToolCallFinished {
                message_id: message_id@,
                result: result@,
            },
            AssistantEvent::MessageFinished { message_id } => SpecEvent::MessageFinished {
                message_id: message_id@,
            },
            AssistantEvent::PermissionRequested { request } => SpecEvent::PermissionRequested {
                request: request@,
            },
            AssistantEvent::PermissionResolved { request_id } => SpecEvent::PermissionResolved {
                request_id: request_id@,
            },
            AssistantEvent::Error { message } => SpecEvent::Error { message: message@ },
        }
    }
}

pub open spec fn events_view(events: Seq<AssistantEvent>) -> Seq<SpecEvent> {
    events.map_values(|e: AssistantEvent| e@)
}

impl Clone for ToolCall {
    fn clone(&self) -> (res: Self)
        ensures
            res == *self,
    {
        ToolCall {
            id: self.id.clone(),
            name: self.name.clone(),
            input: self.input.clone(),
            status: self.status,
        }
    }
}

} // verus!
