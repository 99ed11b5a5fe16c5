use assistant_core::controller::AssistantThread;
use assistant_core::model::{MessagePart, Role, Thread, ThreadId, ThreadStatus};
use assistant_core::runtime::EchoRuntime;
use assistant_core::view::{is_blank, list_splice, message_text, role_label, status_text};

fn thread() -> Thread {
    Thread {
        id: ThreadId("thread".into()),
        ..Default::default()
    }
}

/// Runs one send the way the host does: every event of the runtime, then the end of its
/// stream.
fn send_with_echo(assistant: &mut AssistantThread, runtime: &mut EchoRuntime, text: &str) -> bool {
    let action = assistant.send(text);
    for event in runtime.send(action.input) {
        assistant.apply_event(event);
    }
    assistant.settle();
    action.cancel_previous
}

#[test]
fn send_applies_runtime_events_to_the_thread() {
    let mut assistant = AssistantThread::new(thread());
    let mut runtime = EchoRuntime::default();

    send_with_echo(&mut assistant, &mut runtime, "Hello");

    let thread = assistant.thread();
    assert_eq!(thread.status, ThreadStatus::Idle);
    assert_eq!(thread.messages.len(), 2);
    assert_eq!(thread.messages[0].role, Role::User);
    assert_eq!(thread.messages[1].role, Role::Assistant);
    assert_eq!(
        thread.messages[1].parts,
        vec![MessagePart::Text {
            text: "Echo: Hello".into()
        }]
    );
}

#[test]
fn each_turn_appends_its_own_pair_of_messages() {
    let mut assistant = AssistantThread::new(thread());
    let mut runtime = EchoRuntime::default();

    send_with_echo(&mut assistant, &mut runtime, "first");
    send_with_echo(&mut assistant, &mut runtime, "second");

    let thread = assistant.thread();
    assert_eq!(thread.messages.len(), 4);
    assert_eq!(
        thread.messages[3].parts,
        vec![MessagePart::Text {
            text: "Echo: second".into()
        }]
    );
}

#[test]
fn a_stream_that_ends_without_finishing_still_settles() {
    let mut assistant = AssistantThread::new(thread());

    assistant.send("Hello");
    assistant.settle();

    let thread = assistant.thread();
    assert_eq!(thread.status, ThreadStatus::Idle);
    assert_eq!(thread.messages.len(), 1);
}

#[test]
fn a_new_turn_cancels_the_one_still_running() {
    let mut assistant = AssistantThread::new(thread());

    let first = assistant.send("first");
    let second = assistant.send("second");

    assert!(!first.cancel_previous);
    assert!(second.cancel_previous);
    assert!(assistant.thread().is_generating());
    assert_eq!(assistant.thread().messages.len(), 2);
}

#[test]
fn cancel_stops_generation_and_tells_the_runtime() {
    let mut assistant = AssistantThread::new(thread());

    assistant.send("Hello");
    assert!(assistant.thread().is_generating());

    assert!(assistant.cancel());
    assert_eq!(assistant.thread().status, ThreadStatus::Idle);
    assert!(!assistant.cancel());
}

// ---------------------------------------------------------------------------
// Further cases
// ---------------------------------------------------------------------------

#[test]
fn user_messages_are_numbered_on_from_the_thread() {
    let mut runtime = EchoRuntime::default();
    let mut assistant = AssistantThread::new(thread());
    send_with_echo(&mut assistant, &mut runtime, "a");

    let mut resumed = AssistantThread::new(assistant.thread().clone());
    let action = resumed.send("b");

    assert_eq!(action.input.text, "b");
    assert_eq!(action.input.thread_id, ThreadId("thread".into()));
    assert_eq!(resumed.thread().messages[0].id.0, "thread-user-0");
    assert_eq!(resumed.thread().messages[2].id.0, "thread-user-2");
}

#[test]
fn message_text_joins_parts_and_marks_streaming() {
    let parts = vec![
        MessagePart::Thinking {
            text: "hmm".into(),
            signature: None,
        },
        MessagePart::Text { text: "Hi".into() },
        MessagePart::RedactedThinking { data: "x".into() },
    ];

    assert_eq!(message_text(&parts, false), "Thinking: hmm\nHi\nRedacted thinking");
    assert_eq!(message_text(&parts, true), "Thinking: hmm\nHi\nRedacted thinking▌");
    assert_eq!(message_text(&Vec::new(), true), "▌");
}

#[test]
fn labels_and_status_lines() {
    assert_eq!(role_label(Role::User), "You");
    assert_eq!(role_label(Role::Tool), "Tool");
    assert_eq!(status_text(&ThreadStatus::Idle), "Idle");
    assert_eq!(status_text(&ThreadStatus::Generating), "Generating");
    assert_eq!(
        status_text(&ThreadStatus::Error {
            message: "boom".into()
        }),
        "Error: boom"
    );
}

#[test]
fn the_list_resplices_from_the_trailing_message() {
    assert_eq!(list_splice(0, 0), (0, 0, 0));
    assert_eq!(list_splice(0, 2), (0, 0, 2));
    assert_eq!(list_splice(2, 2), (1, 2, 1));
    assert_eq!(list_splice(2, 4), (2, 2, 2));
}

#[test]
fn blank_text_is_not_sent() {
    assert!(is_blank(""));
    assert!(is_blank(" \t\n\u{3000}"));
    assert!(!is_blank(" a "));
}
