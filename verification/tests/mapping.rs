use assistant_core::mapping::{
    content_output, content_text, permission_request, stop_reason_error, terminal_label, Turn,
};
use assistant_core::model::{
    AssistantEvent, Message, MessageId, PermissionOption, PermissionOptionId,
    PermissionOptionKind, PermissionRequestId, Role, ToolCall, ToolCallId, ToolCallStatus,
    ToolResult,
};
use assistant_core::protocol::{
    AgentPermissionOption, AgentPermissionOptionKind, AgentPermissionRequest, AgentToolCall,
    AgentToolCallStatus, AgentToolCallUpdate, ContentBlock, SessionUpdate, StopReason,
    TerminalRequest, ToolCallContent,
};
use assistant_core::terminal::Terminal;

fn text_chunk(text: &str) -> ContentBlock {
    ContentBlock::Text(text.into())
}

fn acp_tool_call(id: &str, title: &str) -> AgentToolCall {
    AgentToolCall {
        id: id.into(),
        title: title.into(),
        raw_input: None,
        status: AgentToolCallStatus::Pending,
        content: Vec::new(),
    }
}

fn tool_call_update(id: &str, status: AgentToolCallStatus) -> AgentToolCallUpdate {
    AgentToolCallUpdate {
        id: id.into(),
        title: None,
        status: Some(status),
        content: None,
    }
}

#[test]
fn the_first_chunk_of_a_turn_opens_an_assistant_message() {
    let mut turn = Turn::new("session");

    let events = turn.apply(SessionUpdate::AgentMessageChunk(text_chunk("Hel")));

    assert_eq!(
        events,
        vec![
            AssistantEvent::MessageStarted {
                message: Message::new("session-assistant-0", Role::Assistant),
            },
            AssistantEvent::TextDelta {
                message_id: MessageId("session-assistant-0".into()),
                delta: "Hel".into(),
            },
        ]
    );

    let events = turn.apply(SessionUpdate::AgentMessageChunk(text_chunk("lo")));

    assert_eq!(
        events,
        vec![AssistantEvent::TextDelta {
            message_id: MessageId("session-assistant-0".into()),
            delta: "lo".into(),
        }]
    );
}

#[test]
fn each_turn_opens_its_own_message() {
    let mut turn = Turn::new("session");

    turn.apply(SessionUpdate::AgentMessageChunk(text_chunk("first")));
    assert_eq!(
        turn.end(StopReason::EndTurn),
        vec![AssistantEvent::MessageFinished {
            message_id: MessageId("session-assistant-0".into()),
        }]
    );

    let events = turn.apply(SessionUpdate::AgentMessageChunk(text_chunk("second")));

    assert_eq!(
        events.first(),
        Some(&AssistantEvent::MessageStarted {
            message: Message::new("session-assistant-1", Role::Assistant),
        })
    );
}

#[test]
fn thought_chunks_map_to_thinking_deltas() {
    let mut turn = Turn::new("session");

    let events = turn.apply(SessionUpdate::AgentThoughtChunk(text_chunk("hmm")));

    assert_eq!(
        events.last(),
        Some(&AssistantEvent::ThinkingDelta {
            message_id: MessageId("session-assistant-0".into()),
            delta: "hmm".into(),
        })
    );
}

#[test]
fn user_message_chunks_are_dropped() {
    let mut turn = Turn::new("session");

    assert!(turn
        .apply(SessionUpdate::UserMessageChunk(text_chunk("Hello")))
        .is_empty());
}

#[test]
fn a_partial_update_merges_onto_the_call_snapshot() {
    let mut turn = Turn::new("session");

    turn.apply(SessionUpdate::ToolCall(acp_tool_call("call-1", "read")));
    let events = turn.apply(SessionUpdate::ToolCallUpdate(tool_call_update(
        "call-1",
        AgentToolCallStatus::InProgress,
    )));

    assert_eq!(
        events,
        vec![AssistantEvent::ToolCallUpdated {
            message_id: MessageId("session-assistant-0".into()),
            call: ToolCall {
                id: ToolCallId("call-1".into()),
                // Kept from the announced call: the update only carried a status.
                name: "read".into(),
                input: String::new(),
                status: ToolCallStatus::Running,
            },
        }]
    );
}

#[test]
fn a_completed_update_also_emits_the_tool_result() {
    let mut turn = Turn::new("session");

    turn.apply(SessionUpdate::ToolCall(acp_tool_call("call-1", "read")));

    let update = AgentToolCallUpdate {
        id: "call-1".into(),
        title: None,
        status: Some(AgentToolCallStatus::Completed),
        content: Some(vec![ToolCallContent::Content(text_chunk("file contents"))]),
    };

    let events = turn.apply(SessionUpdate::ToolCallUpdate(update));

    assert_eq!(
        events.last(),
        Some(&AssistantEvent::ToolCallFinished {
            message_id: MessageId("session-assistant-0".into()),
            result: ToolResult {
                call_id: ToolCallId("call-1".into()),
                output: "file contents".into(),
                is_error: false,
            },
        })
    );
}

#[test]
fn content_reported_before_completion_survives_into_the_result() {
    let mut turn = Turn::new("session");

    turn.apply(SessionUpdate::ToolCall(acp_tool_call("call-1", "read")));
    turn.apply(SessionUpdate::ToolCallUpdate(AgentToolCallUpdate {
        id: "call-1".into(),
        title: None,
        status: Some(AgentToolCallStatus::InProgress),
        content: Some(vec![ToolCallContent::Content(text_chunk("file contents"))]),
    }));

    // The final update carries no content: ACP already reported it.
    let events = turn.apply(SessionUpdate::ToolCallUpdate(tool_call_update(
        "call-1",
        AgentToolCallStatus::Completed,
    )));

    assert_eq!(
        events.last(),
        Some(&AssistantEvent::ToolCallFinished {
            message_id: MessageId("session-assistant-0".into()),
            result: ToolResult {
                call_id: ToolCallId("call-1".into()),
                output: "file contents".into(),
                is_error: false,
            },
        })
    );
}

#[test]
fn a_diff_keeps_its_path_and_new_text() {
    let mut turn = Turn::new("session");

    turn.apply(SessionUpdate::ToolCall(acp_tool_call("call-1", "edit")));
    let events = turn.apply(SessionUpdate::ToolCallUpdate(AgentToolCallUpdate {
        id: "call-1".into(),
        title: None,
        status: Some(AgentToolCallStatus::Completed),
        content: Some(vec![ToolCallContent::Diff {
            path: "/tmp/acp-test.txt".into(),
            new_text: "hello".into(),
        }]),
    }));

    assert!(matches!(
        events.last(),
        Some(AssistantEvent::ToolCallFinished { result, .. })
            if result.output == "/tmp/acp-test.txt\nhello"
    ));
}

#[test]
fn terminal_content_resolves_to_the_output_we_captured() {
    // What the connection captured of the terminal the agent embeds.
    let mut terminal = Terminal::new(64);
    terminal.push("ran");

    let mut turn = Turn::new("session");
    turn.apply(SessionUpdate::ToolCall(acp_tool_call("call-1", "run")));

    let events = turn.apply(SessionUpdate::ToolCallUpdate(AgentToolCallUpdate {
        id: "call-1".into(),
        title: None,
        status: Some(AgentToolCallStatus::Completed),
        content: Some(vec![ToolCallContent::Terminal {
            output: Some(terminal.output.clone()),
        }]),
    }));

    assert!(matches!(
        events.last(),
        Some(AssistantEvent::ToolCallFinished { result, .. }) if result.output == "ran"
    ));
}

#[test]
fn a_failed_update_marks_the_result_as_an_error() {
    let mut turn = Turn::new("session");

    turn.apply(SessionUpdate::ToolCall(acp_tool_call("call-1", "read")));
    let events = turn.apply(SessionUpdate::ToolCallUpdate(tool_call_update(
        "call-1",
        AgentToolCallStatus::Failed,
    )));

    assert!(matches!(
        events.last(),
        Some(AssistantEvent::ToolCallFinished { result, .. }) if result.is_error
    ));
}

#[test]
fn cancelling_ends_the_turn_without_an_error() {
    let mut turn = Turn::new("session");

    turn.apply(SessionUpdate::AgentMessageChunk(text_chunk("partial")));

    assert_eq!(
        turn.end(StopReason::Cancelled),
        vec![AssistantEvent::MessageFinished {
            message_id: MessageId("session-assistant-0".into()),
        }]
    );
}

#[test]
fn a_refusal_ends_the_turn_with_an_error() {
    let mut turn = Turn::new("session");

    turn.apply(SessionUpdate::AgentMessageChunk(text_chunk("partial")));

    assert!(matches!(
        turn.end(StopReason::Refusal).as_slice(),
        [AssistantEvent::Error { .. }]
    ));
}

#[test]
fn permission_options_keep_their_ids_and_kinds() {
    let request = AgentPermissionRequest {
        session: "session".into(),
        tool_call_id: "call-1".into(),
        title: None,
        options: vec![
            AgentPermissionOption {
                id: "allow".into(),
                name: "Allow".into(),
                kind: AgentPermissionOptionKind::AllowOnce,
            },
            AgentPermissionOption {
                id: "reject".into(),
                name: "Reject".into(),
                kind: AgentPermissionOptionKind::RejectAlways,
            },
        ],
    };

    let request = permission_request(
        PermissionRequestId("permission-0".into()),
        "read".into(),
        &request,
    );

    assert_eq!(request.label, "read");
    assert_eq!(request.call_id, Some(ToolCallId("call-1".into())));
    assert_eq!(
        request.options,
        vec![
            PermissionOption {
                id: PermissionOptionId("allow".into()),
                name: "Allow".into(),
                kind: PermissionOptionKind::AllowOnce,
            },
            PermissionOption {
                id: PermissionOptionId("reject".into()),
                name: "Reject".into(),
                kind: PermissionOptionKind::RejectAlways,
            },
        ]
    );
}

#[test]
fn a_terminal_label_shows_the_whole_command() {
    let request = TerminalRequest {
        session: "session".into(),
        command: "sh".into(),
        args: vec!["-c".into(), "cargo test --workspace".into()],
        output_byte_limit: None,
    };

    assert_eq!(terminal_label(&request), "sh -c cargo test --workspace");
}

// ---------------------------------------------------------------------------
// Further cases
// ---------------------------------------------------------------------------

#[test]
fn content_blocks_read_as_their_kind() {
    assert_eq!(content_text(&ContentBlock::Text("hi".into())), "hi");
    assert_eq!(content_text(&ContentBlock::Image), "[image]");
    assert_eq!(content_text(&ContentBlock::Audio), "[audio]");
    assert_eq!(content_text(&ContentBlock::Other), "[unsupported content]");
}

#[test]
fn empty_content_is_left_out_of_the_output() {
    let output = content_output(&vec![
        ToolCallContent::Content(ContentBlock::Text("one".into())),
        ToolCallContent::Terminal { output: None },
        ToolCallContent::Content(ContentBlock::Text(String::new())),
        ToolCallContent::Other,
    ]);

    assert_eq!(output, "one\n[unsupported tool content]");
}

#[test]
fn stop_reasons_map_to_their_errors() {
    assert_eq!(stop_reason_error(&StopReason::EndTurn), None);
    assert_eq!(stop_reason_error(&StopReason::Cancelled), None);
    assert_eq!(
        stop_reason_error(&StopReason::MaxTokens).as_deref(),
        Some("The agent reached its token limit")
    );
    assert_eq!(
        stop_reason_error(&StopReason::MaxTurnRequests).as_deref(),
        Some("The agent reached its request limit")
    );
    assert_eq!(
        stop_reason_error(&StopReason::Refusal).as_deref(),
        Some("The agent refused to continue")
    );
    assert_eq!(
        stop_reason_error(&StopReason::Other("Paused".into())).as_deref(),
        Some("The agent stopped: Paused")
    );
}

#[test]
fn a_turn_that_showed_nothing_ends_silently() {
    let mut turn = Turn::new("session");

    assert!(turn.end(StopReason::EndTurn).is_empty());
}

#[test]
fn a_failed_turn_reports_its_error_and_starts_over() {
    let mut turn = Turn::new("s");
    turn.apply(SessionUpdate::AgentMessageChunk(text_chunk("partial")));

    assert_eq!(
        turn.fail("boom".into()),
        vec![AssistantEvent::Error {
            message: "boom".into()
        }]
    );
    let events = turn.apply(SessionUpdate::AgentMessageChunk(text_chunk("again")));
    assert_eq!(
        events[0],
        AssistantEvent::MessageStarted {
            message: Message::new("s-assistant-1", Role::Assistant),
        }
    );
}

#[test]
fn an_update_for_an_unseen_call_starts_from_a_pending_snapshot() {
    let mut turn = Turn::new("session");

    let events = turn.apply(SessionUpdate::ToolCallUpdate(AgentToolCallUpdate {
        id: "call-7".into(),
        title: Some("grep".into()),
        status: None,
        content: None,
    }));

    assert_eq!(
        events.last(),
        Some(&AssistantEvent::ToolCallUpdated {
            message_id: MessageId("session-assistant-0".into()),
            call: ToolCall {
                id: ToolCallId("call-7".into()),
                name: "grep".into(),
                input: String::new(),
                status: ToolCallStatus::Pending,
            },
        })
    );
    assert_eq!(turn.call_name(&ToolCallId("call-7".into())).as_deref(), Some("grep"));
    assert_eq!(turn.call_name(&ToolCallId("call-8".into())), None);
}

#[test]
fn a_tool_call_keeps_its_raw_input_and_status() {
    let mut turn = Turn::new("session");

    let events = turn.apply(SessionUpdate::ToolCall(AgentToolCall {
        id: "call-1".into(),
        title: "read".into(),
        raw_input: Some("{\"path\":\"a\"}".into()),
        status: AgentToolCallStatus::InProgress,
        content: Vec::new(),
    }));

    assert_eq!(
        events,
        vec![
            AssistantEvent::MessageStarted {
                message: Message::new("session-assistant-0", Role::Assistant),
            },
            AssistantEvent::ToolCallStarted {
                message_id: MessageId("session-assistant-0".into()),
                call: ToolCall {
                    id: ToolCallId("call-1".into()),
                    name: "read".into(),
                    input: "{\"path\":\"a\"}".into(),
                    status: ToolCallStatus::Running,
                },
            },
        ]
    );
}

#[test]
fn unknown_option_kinds_are_never_allow_buttons() {
    let request = AgentPermissionRequest {
        session: "s".into(),
        tool_call_id: "c".into(),
        title: None,
        options: vec![AgentPermissionOption {
            id: "x".into(),
            name: "X".into(),
            kind: AgentPermissionOptionKind::Unknown,
        }],
    };

    let request = permission_request(PermissionRequestId("p".into()), "c".into(), &request);

    assert_eq!(request.options[0].kind, PermissionOptionKind::RejectOnce);
}

#[test]
fn the_chunks_of_a_turn_build_one_message_in_the_thread() {
    let mut turn = Turn::new("s");
    let mut thread = assistant_core::model::Thread::default();

    for update in [
        SessionUpdate::AgentMessageChunk(text_chunk("Hel")),
        SessionUpdate::AgentMessageChunk(text_chunk("lo")),
    ] {
        for event in turn.apply(update) {
            thread.apply_event(event);
        }
    }

    assert_eq!(thread.messages.len(), 1);
    assert_eq!(thread.messages[0].id, MessageId("s-assistant-0".into()));
    assert_eq!(
        thread.messages[0].parts,
        vec![assistant_core::model::MessagePart::Text {
            text: "Hello".into()
        }]
    );
}

#[test]
fn a_run_of_updates_after_an_ended_turn_addresses_the_next_message() {
    let mut turn = Turn::new("session");
    turn.apply(SessionUpdate::AgentMessageChunk(text_chunk("first")));
    turn.end(StopReason::EndTurn);

    let mut events = Vec::new();
    events.extend(turn.apply(SessionUpdate::UserMessageChunk(text_chunk("hi"))));
    events.extend(turn.apply(SessionUpdate::ToolCall(acp_tool_call("call-1", "read"))));
    events.extend(turn.apply(SessionUpdate::ToolCallUpdate(tool_call_update(
        "call-1",
        AgentToolCallStatus::Failed,
    ))));
    events.extend(turn.apply(SessionUpdate::AgentMessageChunk(text_chunk("sorry"))));

    let id = MessageId("session-assistant-1".into());
    let started = ToolCall {
        id: ToolCallId("call-1".into()),
        name: "read".into(),
        input: String::new(),
        status: ToolCallStatus::Pending,
    };
    let failed = ToolCall { status: ToolCallStatus::Failed, ..started.clone() };
    assert_eq!(
        events,
        vec![
            AssistantEvent::MessageStarted {
                message: Message::new("session-assistant-1", Role::Assistant),
            },
            AssistantEvent::ToolCallStarted { message_id: id.clone(), call: started },
            AssistantEvent::ToolCallUpdated { message_id: id.clone(), call: failed },
            AssistantEvent::ToolCallFinished {
                message_id: id.clone(),
                result: ToolResult {
                    call_id: ToolCallId("call-1".into()),
                    output: String::new(),
                    is_error: true,
                },
            },
            AssistantEvent::TextDelta { message_id: id, delta: "sorry".into() },
        ]
    );
}
