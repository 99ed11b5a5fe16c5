//! The decisions of a chat controller: what sending, cancelling and the end of a
//! runtime's stream do to the thread, and what the views show of it. The host runs
//! the runtime and its event stream, and does what these functions say.

use vstd::prelude::*;

use crate::model::{
    AssistantEvent, Message, Role, SpecMessage, SpecPart, SpecStatus, SpecThread, Thread,
    ThreadStatus, UserInput,
};
use crate::text::{decimal, lemma_numbered_distinct, push_decimal};
use crate::thread::apply_event;

verus! {

/// The id of the user message numbered `n` in a thread.
pub open spec fn user_message_id(thread_id: Seq<char>, n: nat) -> Seq<char> {
    thread_id + "-user-"@ + decimal(n)
}

/// A thread, the number of its next user message, and whether a generation was started
/// and not stopped since.
#[derive(Debug)]
pub struct AssistantThread {
    thread: Thread,
    next_message_id: u64,
    generation: bool,
}

pub struct SpecAssistantThread {
    pub thread: SpecThread,
    pub next_message_id: nat,
    pub generation: bool,
}

impl View for AssistantThread {
    type V = SpecAssistantThread;

    closed spec fn view(&self) -> SpecAssistantThread {
        SpecAssistantThread {
            thread: self.thread@,
            next_message_id: self.next_message_id as nat,
            generation: self.generation,
        }
    }
}

/// What the host does for a send: cancel the running generation first if told to, then
/// hand the input to the runtime.
#[derive(Debug)]
pub struct SendAction {
    pub cancel_previous: bool,
    pub input: UserInput,
}

impl AssistantThread {
    /// User messages are numbered on from the messages the thread already holds.
    pub fn new(thread: Thread) -> (res: Self)
        ensures
            res@ == (SpecAssistantThread {
                thread: thread@,
                next_message_id: thread@.messages.len(),
                generation: false,
            }),
    {
        let next_message_id = thread.messages.len() as u64;
        AssistantThread { thread, next_message_id, generation: false }
    }

    pub fn thread(&self) -> (res: &Thread)
        ensures
            res@ == self@.thread,
    {
        &self.thread
    }

    /// Folds one event of the running generation into the thread.
    pub fn apply_event(&mut self, event: AssistantEvent)
        ensures
            final(self)@ == (SpecAssistantThread {
                thread: apply_event(old(self)@.thread, event@),
                ..old(self)@
            }),
    {
        self.thread.apply_event(event);
    }

    fn take_message_id(&mut self) -> (res: String)
        ensures
            res@ == user_message_id(old(self)@.thread.id, old(self)@.next_message_id),
            final(self)@ == (SpecAssistantThread {
                next_message_id: if old(self)@.next_message_id < u64::MAX {
                    old(self)@.next_message_id + 1
                } else {
                    0
                },
                ..old(self)@
            }),
    {
        let mut id = self.thread.id.0.clone();
        id.append("-user-");
        push_decimal(&mut id, self.next_message_id);
        self.next_message_id = self.next_message_id.wrapping_add(1);
        id
    }

    /// Stops the running generation, if any; gives whether the runtime must be told.
    fn stop_generation(&mut self) -> (res: bool)
        ensures
            res == old(self)@.generation,
            final(self)@ == (SpecAssistantThread { generation: false, ..old(self)@ }),
    {
        let running = self.generation;
        self.generation = false;
        running
    }

    /// Sends text: the user message joins the thread, the thread starts generating, and a
    /// generation that was still running is cancelled first.
    pub fn send(&mut self, text: &str) -> (res: SendAction)
        ensures
            res.cancel_previous == old(self)@.generation,
            res.input.thread_id@ == old(self)@.thread.id,
            res.input.text@ == text@,
            res.input.attachments@.len() == 0,
            final(self)@ == (SpecAssistantThread {
                thread: SpecThread {
                    messages: old(self)@.thread.messages.push(
                        SpecMessage {
                            id: user_message_id(old(self)@.thread.id, old(self)@.next_message_id),
                            role: Role::User,
                            parts: seq![SpecPart::Text { text: text@ }],
                        },
                    ),
                    status: SpecStatus::Generating,
                    ..old(self)@.thread
                },
                next_message_id: if old(self)@.next_message_id < u64::MAX {
                    old(self)@.next_message_id + 1
                } else {
                    0
                },
                generation: true,
            }),
    {
        let message_id = self.take_message_id();
        let cancel_previous = self.stop_generation();
        let ghost before = self.thread.messages@;
        self.thread.messages.push(Message::user(message_id.as_str(), text));
        self.thread.status = ThreadStatus::Generating;
        let input = UserInput::text(self.thread.id.0.as_str(), text);
        self.generation = true;
        assert(self@.thread.messages =~= old(self)@.thread.messages.push(
            SpecMessage {
                id: user_message_id(old(self)@.thread.id, old(self)@.next_message_id),
                role: Role::User,
                parts: seq![SpecPart::Text { text: text@ }],
            },
        ));
        SendAction { cancel_previous, input }
    }

    /// The runtime's stream ended. A runtime may end it without finishing its message, so
    /// a thread still generating settles to idle.
    pub fn settle(&mut self)
        ensures
            final(self)@ == (SpecAssistantThread {
                thread: if old(self)@.thread.status is Generating {
                    SpecThread { status: SpecStatus::Idle, ..old(self)@.thread }
                } else {
                    old(self)@.thread
                },
                ..old(self)@
            }),
    {
        if self.thread.is_generating() {
            self.thread.status = ThreadStatus::Idle;
        }
    }

    /// Cancels the running generation: the thread goes idle. Gives whether the runtime
    /// must be told.
    pub fn cancel(&mut self) -> (res: bool)
        ensures
            res == old(self)@.generation,
            final(self)@ == (SpecAssistantThread {
                thread: SpecThread { status: SpecStatus::Idle, ..old(self)@.thread },
                generation: false,
                ..old(self)@
            }),
    {
        let running = self.stop_generation();
        self.thread.status = ThreadStatus::Idle;
        running
    }
}

/// Two user messages of one thread, numbered differently, have different ids.
pub proof fn lemma_user_message_ids_distinct(thread_id: Seq<char>, a: nat, b: nat)
    requires
        a != b,
    ensures
        user_message_id(thread_id, a) != user_message_id(thread_id, b),
{
    lemma_numbered_distinct(thread_id + "-user-"@, a, b);
}

} // verus!
