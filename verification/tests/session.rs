use assistant_core::model::{
    AssistantEvent, PermissionOption, PermissionOptionId, PermissionOptionKind, PermissionRequest,
    PermissionRequestId, ThreadId, ToolCallId,
};
use assistant_core::protocol::{
    AgentPermissionRequest, AgentToolCall, AgentToolCallStatus, SessionUpdate, StopReason,
    TerminalRequest,
};
use assistant_core::session::{Answer, ParkedKind, Shared, TerminalDecision};

fn command(session: &str, line: &str) -> TerminalRequest {
    TerminalRequest {
        session: session.into(),
        command: "sh".into(),
        args: vec!["-c".into(), line.into()],
        output_byte_limit: None,
    }
}

#[test]
fn a_session_approval_only_covers_the_exact_command() {
    let mut shared = Shared::new();

    shared.approve_for_session("session", "cargo test --workspace".into());

    assert!(shared.is_approved("session", "cargo test --workspace"));
    // A prefix match would have let anything after `cargo test` through.
    assert!(!shared.is_approved("session", "cargo test --workspace; rm -rf /"));
    assert!(!shared.is_approved("session", "cargo test"));
    // Another session never inherits an approval.
    assert!(!shared.is_approved("other", "cargo test --workspace"));
}

// ---------------------------------------------------------------------------
// Further cases
// ---------------------------------------------------------------------------

#[test]
fn threads_bind_to_sessions() {
    let mut shared = Shared::new();
    let thread = ThreadId("thread".into());

    assert_eq!(shared.session(&thread), None);
    shared.bind_session(ThreadId("thread".into()), "one".into());
    shared.bind_session(ThreadId("thread".into()), "two".into());

    assert_eq!(shared.session(&thread).as_deref(), Some("two"));
    assert_eq!(shared.session(&ThreadId("other".into())), None);
}

#[test]
fn permission_ids_count_up() {
    let mut shared = Shared::new();

    assert_eq!(shared.next_permission_id(), PermissionRequestId("permission-0".into()));
    assert_eq!(shared.next_permission_id(), PermissionRequestId("permission-1".into()));
}

#[test]
fn a_command_waits_for_the_user_until_allowed_for_the_session() {
    let mut shared = Shared::new();

    let (request_id, events) = match shared.park_terminal(&command("s", "ls")) {
        TerminalDecision::Ask { request_id, events } => (request_id, events),
        TerminalDecision::Run => panic!("an unapproved command ran"),
    };

    assert_eq!(request_id, PermissionRequestId("permission-0".into()));
    assert_eq!(
        events,
        vec![AssistantEvent::PermissionRequested {
            request: PermissionRequest {
                id: PermissionRequestId("permission-0".into()),
                label: "sh -c ls".into(),
                call_id: None,
                options: vec![
                    PermissionOption {
                        id: PermissionOptionId("permission-0-once".into()),
                        name: "Run".into(),
                        kind: PermissionOptionKind::AllowOnce,
                    },
                    PermissionOption {
                        id: PermissionOptionId("permission-0-session".into()),
                        name: "Allow for session".into(),
                        kind: PermissionOptionKind::AllowAlways,
                    },
                    PermissionOption {
                        id: PermissionOptionId("permission-0-reject".into()),
                        name: "Reject".into(),
                        kind: PermissionOptionKind::RejectOnce,
                    },
                ],
            },
        }]
    );

    let resolution = shared
        .resolve_permission(
            &request_id,
            Some(PermissionOptionId("permission-0-session".into())),
        )
        .expect("a parked request");
    assert_eq!(resolution.session, "s");
    assert!(matches!(resolution.answer, Answer::Terminal { allowed: true }));
    assert_eq!(
        resolution.events,
        vec![AssistantEvent::PermissionResolved {
            request_id: request_id.clone()
        }]
    );

    assert!(matches!(shared.park_terminal(&command("s", "ls")), TerminalDecision::Run));
    assert!(matches!(
        shared.park_terminal(&command("s", "ls -a")),
        TerminalDecision::Ask { .. }
    ));
    assert!(shared.resolve_permission(&request_id, None).is_none());
}

#[test]
fn rejecting_or_running_once_does_not_approve_the_command() {
    let mut shared = Shared::new();

    let TerminalDecision::Ask { request_id, .. } = shared.park_terminal(&command("s", "ls")) else {
        panic!("an unapproved command ran");
    };
    let resolution = shared
        .resolve_permission(&request_id, Some(PermissionOptionId("permission-0-once".into())))
        .expect("a parked request");
    assert!(matches!(resolution.answer, Answer::Terminal { allowed: true }));
    assert!(!shared.is_approved("s", "sh -c ls"));

    let TerminalDecision::Ask { request_id, .. } = shared.park_terminal(&command("s", "ls")) else {
        panic!("an unapproved command ran");
    };
    let resolution = shared
        .resolve_permission(&request_id, Some(PermissionOptionId("permission-1-reject".into())))
        .expect("a parked request");
    assert!(matches!(resolution.answer, Answer::Terminal { allowed: false }));
}

#[test]
fn a_permission_request_is_labelled_by_its_call() {
    let mut shared = Shared::new();
    shared.dispatch(
        "s",
        SessionUpdate::ToolCall(AgentToolCall {
            id: "call-1".into(),
            title: "read file".into(),
            raw_input: None,
            status: AgentToolCallStatus::Pending,
            content: Vec::new(),
        }),
    );

    let (request_id, events) = shared.park_permission(&AgentPermissionRequest {
        session: "s".into(),
        tool_call_id: "call-1".into(),
        title: None,
        options: Vec::new(),
    });

    assert_eq!(
        events,
        vec![AssistantEvent::PermissionRequested {
            request: PermissionRequest {
                id: request_id.clone(),
                label: "read file".into(),
                call_id: Some(ToolCallId("call-1".into())),
                options: Vec::new(),
            },
        }]
    );

    let resolution = shared
        .resolve_permission(&request_id, Some(PermissionOptionId("allow".into())))
        .expect("a parked request");
    assert!(matches!(
        resolution.answer,
        Answer::Permission { selected: Some(ref option) } if option.0 == "allow"
    ));
}

#[test]
fn an_unknown_call_is_labelled_by_its_id() {
    let mut shared = Shared::new();

    let (_, events) = shared.park_permission(&AgentPermissionRequest {
        session: "s".into(),
        tool_call_id: "call-9".into(),
        title: None,
        options: Vec::new(),
    });

    assert!(matches!(
        &events[0],
        AssistantEvent::PermissionRequested { request } if request.label == "call-9"
    ));
}

#[test]
fn ending_a_turn_cancels_what_its_session_parked() {
    let mut shared = Shared::new();
    shared.dispatch("s", SessionUpdate::AgentMessageChunk(assistant_core::protocol::ContentBlock::Text("hi".into())));
    let TerminalDecision::Ask { request_id: mine, .. } = shared.park_terminal(&command("s", "ls")) else {
        panic!("an unapproved command ran");
    };
    let TerminalDecision::Ask { request_id: theirs, .. } = shared.park_terminal(&command("t", "ls")) else {
        panic!("an unapproved command ran");
    };

    let (cancelled, events) = shared.end_turn("s", StopReason::EndTurn);

    assert_eq!(cancelled.len(), 1);
    assert_eq!(cancelled[0].request_id, mine);
    assert!(matches!(cancelled[0].kind, ParkedKind::Terminal { .. }));
    assert_eq!(
        events,
        vec![
            AssistantEvent::PermissionResolved {
                request_id: mine.clone()
            },
            AssistantEvent::MessageFinished {
                message_id: assistant_core::model::MessageId("s-assistant-0".into()),
            },
        ]
    );
    assert!(shared.resolve_permission(&mine, None).is_none());
    assert!(shared.resolve_permission(&theirs, None).is_some());
}

#[test]
fn failing_a_turn_reports_the_error_after_the_cancellations() {
    let mut shared = Shared::new();
    let (request_id, _) = shared.park_permission(&AgentPermissionRequest {
        session: "s".into(),
        tool_call_id: "c".into(),
        title: Some("t".into()),
        options: Vec::new(),
    });

    let (cancelled, events) = shared.fail_turn("s", "gone".into());

    assert_eq!(cancelled.len(), 1);
    assert_eq!(
        events,
        vec![
            AssistantEvent::PermissionResolved { request_id },
            AssistantEvent::Error {
                message: "gone".into()
            },
        ]
    );
}
