//! The runtimes whose answers need no outside service: an echo runtime, and the
//! configuration of an OpenAI-compatible endpoint.

use vstd::prelude::*;

use crate::model::{
    events_view, AssistantEvent, Message, MessageId, Role, SpecEvent, SpecMessage, SpecPart,
    SpecPermissionRequest, SpecStatus, SpecThread, UserInput,
};
use crate::seqs::{lemma_first_match, lemma_first_match_is};
use crate::thread::{apply_event, apply_events, message_index, push_text};
use crate::text::{decimal, lemma_numbered_distinct, push_decimal};

verus! {

/// The id of the assistant message that the echo runtime mints for a turn.
pub open spec fn echo_message_id(thread_id: Seq<char>, turn: nat) -> Seq<char> {
    thread_id + "-assistant-"@ + decimal(turn)
}

/// The events of one echo turn: an empty assistant message, one delta holding the
/// prefix and the input text, and the end of the message.
pub open spec fn echo_events(id: Seq<char>, prefix: Seq<char>, text: Seq<char>) -> Seq<SpecEvent> {
    seq![
        SpecEvent::MessageStarted {
            message: SpecMessage { id, role: Role::Assistant, parts: Seq::<SpecPart>::empty() },
        },
        SpecEvent::TextDelta { message_id: id, delta: prefix + text },
        SpecEvent::MessageFinished { message_id: id },
    ]
}

/// Answers every input with the input itself behind a fixed prefix.
#[derive(Debug)]
pub struct EchoRuntime {
    response_prefix: String,
    next_turn: u64,
}

impl EchoRuntime {
    pub closed spec fn prefix(&self) -> Seq<char> {
        self.response_prefix@
    }

    /// The number of the turn the next `send` answers.
    pub closed spec fn turn(&self) -> nat {
        self.next_turn as nat
    }

    pub fn new(response_prefix: &str) -> (res: Self)
        ensures
            res.prefix() == response_prefix@,
            res.turn() == 0,
    {
        EchoRuntime { response_prefix: response_prefix.to_owned(), next_turn: 0 }
    }

    /// Answers one input; each turn mints its own assistant message id.
    pub fn send(&mut self, input: UserInput) -> (events: Vec<AssistantEvent>)
        ensures
            events_view(events@) == echo_events(
                echo_message_id(input.thread_id@, old(self).turn()),
                old(self).prefix(),
                input.text@,
            ),
            final(self).prefix() == old(self).prefix(),
            final(self).turn() == if old(self).turn() < u64::MAX {
                old(self).turn() + 1
            } else {
                0
            },
    {
        let mut id = input.thread_id.0.clone();
        id.append("-assistant-");
        push_decimal(&mut id, self.next_turn);
        self.next_turn = self.next_turn.wrapping_add(1);

        let mut response = self.response_prefix.clone();
        response.append(input.text.as_str());

        let mut events = Vec::new();
        events.push(AssistantEvent::MessageStarted { message: Message::new(id.as_str(), Role::Assistant) });
        events.push(AssistantEvent::TextDelta { message_id: MessageId(id.clone()), delta: response });
        events.push(AssistantEvent::MessageFinished { message_id: MessageId(id) });
        assert(events_view(events@) =~= echo_events(
            echo_message_id(input.thread_id@, old(self).turn()),
            old(self).prefix(),
            input.text@,
        ));
        events
    }
}

impl Default for EchoRuntime {
    fn default() -> (res: Self)
        ensures
            res.prefix() == "Echo: "@,
            res.turn() == 0,
    {
        Self::new("Echo: ")
    }
}

/// Two turns of one echo runtime never share a message id.
pub proof fn lemma_echo_ids_distinct(thread_id: Seq<char>, a: nat, b: nat)
    requires
        a != b,
    ensures
        echo_message_id(thread_id, a) != echo_message_id(thread_id, b),
{
    lemma_numbered_distinct(thread_id + "-assistant-"@, a, b);
}

/// Where an OpenAI-compatible endpoint lives and which model it serves.
#[derive(Debug)]
pub struct OpenAiCompatibleRuntime {
    pub base_url: String,
    pub api_key: Option<String>,
    pub model: String,
}

impl OpenAiCompatibleRuntime {
    pub fn new(base_url: &str, model: &str) -> (res: Self)
        ensures
            res.base_url@ == base_url@,
            res.api_key.is_none(),
            res.model@ == model@,
    {
        OpenAiCompatibleRuntime {
            base_url: base_url.to_owned(),
            api_key: None,
            model: model.to_owned(),
        }
    }

    /// The same configuration with an API key.
    pub fn api_key(self, api_key: &str) -> (res: Self)
        ensures
            res.base_url == self.base_url,
            res.model == self.model,
            res.api_key matches Some(key) && key@ == api_key@,
    {
        OpenAiCompatibleRuntime { api_key: Some(api_key.to_owned()), ..self }
    }

    /// The adapter does not talk to the endpoint yet: a turn ends without any event.
    pub fn send(&self, input: UserInput) -> (events: Vec<AssistantEvent>)
        ensures
            events@.len() == 0,
    {
        Vec::new()
    }
}

} // verus!

verus! {

/// An echo turn whose message id is new to the thread appends one assistant message
/// holding the prefixed input, and leaves the thread idle with nothing pending.
pub proof fn lemma_echo_turn(t: SpecThread, id: Seq<char>, prefix: Seq<char>, text: Seq<char>)
    requires
        message_index(t.messages, id) == t.messages.len(),
    ensures
        apply_events(t, echo_events(id, prefix, text)) == (SpecThread {
            messages: t.messages.push(
                SpecMessage {
                    id,
                    role: Role::Assistant,
                    parts: seq![SpecPart::Text { text: prefix + text }],
                },
            ),
            status: SpecStatus::Idle,
            pending: Seq::empty(),
            id: t.id,
        }),
{
    let es = echo_events(id, prefix, text);
    let started = SpecMessage { id, role: Role::Assistant, parts: Seq::<SpecPart>::empty() };
    let t1 = apply_event(t, es[0]);
    assert(t1.messages == t.messages.push(started));
    let p = |m: SpecMessage| m.id == id;
    lemma_first_match(t.messages, p);
    lemma_first_match_is(t1.messages, p, t.messages.len() as int);
    let t2 = apply_event(t1, es[1]);
    assert(push_text(Seq::<SpecPart>::empty(), prefix + text) =~= seq![
        SpecPart::Text { text: prefix + text },
    ]);
    let t3 = apply_event(t2, es[2]);
    assert(es.drop_first().drop_first().drop_first() =~= Seq::<SpecEvent>::empty());
    assert(es.drop_first()[0] == es[1]);
    assert(es.drop_first().drop_first()[0] == es[2]);
    assert(apply_events(t, es) == apply_events(t1, es.drop_first()));
    assert(apply_events(t1, es.drop_first()) == apply_events(t2, es.drop_first().drop_first()));
    assert(apply_events(t2, es.drop_first().drop_first()) == apply_events(
        t3,
        es.drop_first().drop_first().drop_first(),
    ));
    assert(t3.messages =~= t.messages.push(
        SpecMessage {
            id,
            role: Role::Assistant,
            parts: seq![SpecPart::Text { text: prefix + text }],
        },
    ));
    assert(t3.pending =~= Seq::<SpecPermissionRequest>::empty());
}

} // verus!
