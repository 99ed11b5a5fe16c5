//! What the mapping reads of Agent Client Protocol messages, held as plain values.
//! The connection converts each message it receives into these types.

use vstd::prelude::*;

verus! {

/// A content block of a chunk or of tool call content.
#[derive(Clone, Debug, PartialEq, Eq)]
pub enum ContentBlock {
    Text(String),
    Image,
    Audio,
    /// Resource links, embedded resources, and kinds this crate does not know.
    Other,
}

/// Content that a tool call reports.
#[derive(Clone, Debug, PartialEq, Eq)]
pub enum ToolCallContent {
    Content(ContentBlock),
    Diff { path: String, new_text: String },
    /// A terminal that this client runs, with the output captured so far (`None` when
    /// the terminal is unknown).
    Terminal { output: Option<String> },
    Other,
}

#[derive(Clone, Copy, Debug, PartialEq, Eq, Structural)]
pub enum AgentToolCallStatus {
    Pending,
    InProgress,
    Completed,
    Failed,
    Unknown,
}

/// A tool call the agent announces.
#[derive(Clone, Debug, PartialEq, Eq)]
pub struct AgentToolCall {
    pub id: String,
    pub title: String,
    /// The call's raw input, serialized as JSON.
    pub raw_input: Option<String>,
    pub status: AgentToolCallStatus,
    pub content: Vec<ToolCallContent>,
}

/// A partial update of a tool call: each field that is `None` keeps its value.
#[derive(Clone, Debug, PartialEq, Eq)]
pub struct AgentToolCallUpdate {
    pub id: String,
    pub title: Option<String>,
    pub status: Option<AgentToolCallStatus>,
    pub content: Option<Vec<ToolCallContent>>,
}

#[derive(Clone, Debug, PartialEq, Eq)]
pub enum SessionUpdate {
    UserMessageChunk(ContentBlock),
    AgentMessageChunk(ContentBlock),
    AgentThoughtChunk(ContentBlock),
    ToolCall(AgentToolCall),
    ToolCallUpdate(AgentToolCallUpdate),
    /// Plans, modes, commands, configuration, and kinds this crate does not know.
    Other,
}

/// Why the agent ended a turn.
#[derive(Clone, Debug, PartialEq, Eq)]
pub enum StopReason {
    EndTurn,
    MaxTokens,
    MaxTurnRequests,
    Refusal,
    Cancelled,
    /// A reason this crate does not know, by its name.
    Other(String),
}

#[derive(Clone, Copy, Debug, PartialEq, Eq, Structural)]
pub enum AgentPermissionOptionKind {
    AllowOnce,
    AllowAlways,
    RejectOnce,
    RejectAlways,
    Unknown,
}

#[derive(Clone, Debug, PartialEq, Eq)]
pub struct AgentPermissionOption {
    pub id: String,
    pub name: String,
    pub kind: AgentPermissionOptionKind,
}

/// The agent asks the user to allow a tool call.
#[derive(Clone, Debug, PartialEq, Eq)]
pub struct AgentPermissionRequest {
    pub session: String,
    pub tool_call_id: String,
    /// The title the request gives the call, if any.
    pub title: Option<String>,
    pub options: Vec<AgentPermissionOption>,
}

/// The agent asks this client to run a command in a terminal.
#[derive(Clone, Debug, PartialEq, Eq)]
pub struct TerminalRequest {
    pub session: String,
    pub command: String,
    pub args: Vec<String>,
    pub output_byte_limit: Option<u64>,
}

} // verus!
