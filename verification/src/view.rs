//! What the views show of a thread.

use vstd::prelude::*;

use crate::model::{parts_view, MessagePart, Role, SpecPart, SpecStatus, ThreadStatus};
use crate::terminal::chars_of;
use crate::text::{join, join_strings, strings_view};

verus! {

pub open spec fn spec_role_label(role: Role) -> Seq<char> {
    match role {
        Role::User => "You"@,
        Role::Assistant => "Assistant"@,
        Role::System => "System"@,
        Role::Tool => "Tool"@,
    }
}

/// The heading of a message.
pub fn role_label(role: Role) -> (res: &'static str)
    ensures
        res@ == spec_role_label(role),
{
    match role {
        Role::User => "You",
        Role::Assistant => "Assistant",
        Role::System => "System",
        Role::Tool => "Tool",
    }
}

/// How one part of a message reads.
pub open spec fn spec_part_text(part: SpecPart) -> Seq<char> {
    match part {
        SpecPart::Text { text } => text,
        SpecPart::Thinking { text, .. } => "Thinking: "@ + text,
        SpecPart::RedactedThinking { .. } => "Redacted thinking"@,
        SpecPart::ToolCall(call) => "Tool call: "@ + call.name,
        SpecPart::ToolResult(result) => result.output,
        SpecPart::Attachment(attachment) => "Attachment: "@ + attachment.name,
    }
}

pub fn part_text(part: &MessagePart) -> (res: String)
    ensures
        res@ == spec_part_text(part@),
{
    match part {
        MessagePart::Text { text } => text.clone(),
        MessagePart::Thinking { text, .. } => {
            let mut res = "Thinking: ".to_owned();
            res.append(text.as_str());
            res
        },
        MessagePart::RedactedThinking { .. } => "Redacted thinking".to_owned(),
        MessagePart::ToolCall(call) => {
            let mut res = "Tool call: ".to_owned();
            res.append(call.name.as_str());
            res
        },
        MessagePart::ToolResult(result) => result.output.clone(),
        MessagePart::Attachment(attachment) => {
            let mut res = "Attachment: ".to_owned();
            res.append(attachment.name.as_str());
            res
        },
    }
}

/// The body of a message: its parts, one per line, and a cursor while it streams.
pub open spec fn spec_message_text(parts: Seq<SpecPart>, is_streaming: bool) -> Seq<char> {
    let body = join(parts.map_values(|p: SpecPart| spec_part_text(p)), "\n"@);
    if is_streaming {
        body + "▌"@
    } else {
        body
    }
}

pub fn message_text(parts: &Vec<MessagePart>, is_streaming: bool) -> (res: String)
    ensures
        res@ == spec_message_text(parts_view(parts@), is_streaming),
{
    let ghost texts = parts_view(parts@).map_values(|p: SpecPart| spec_part_text(p));
    let mut lines: Vec<String> = Vec::new();
    let mut i: usize = 0;
    while i < parts.len()
        invariant
            0 <= i <= parts.len(),
            texts == parts_view(parts@).map_values(|p: SpecPart| spec_part_text(p)),
            strings_view(lines@) == texts.take(i as int),
        decreases parts.len() - i,
    {
        let ghost before = lines@;
        assert(parts_view(parts@)[i as int] == parts@[i as int]@);
        assert(texts.take(i + 1) =~= texts.take(i as int).push(texts[i as int]));
        lines.push(part_text(&parts[i]));
        assert(strings_view(lines@) =~= texts.take(i + 1));
        i = i + 1;
    }
    assert(texts.take(parts.len() as int) =~= texts);
    let mut text = join_strings(&lines, "\n");
    if is_streaming {
        text.append("▌");
    }
    text
}

/// A message reads as its parts, one per line: a single part reads as that part alone,
/// each further part adds a line break and its text, and a streaming message ends in a
/// cursor. A tool result reads as its output, a text part as its text, a tool call as
/// its name after "Tool call: ".
pub proof fn lemma_message_text_lines(parts: Seq<SpecPart>, part: SpecPart)
    ensures
        spec_message_text(parts, true) == spec_message_text(parts, false) + "▌"@,
        spec_message_text(seq![part], false) == spec_part_text(part),
        parts.len() > 0 ==> spec_message_text(parts.push(part), false) == spec_message_text(
            parts,
            false,
        ) + "\n"@ + spec_part_text(part),
        part matches SpecPart::ToolResult(result) ==> spec_part_text(part) == result.output,
        part matches SpecPart::Text { text } ==> spec_part_text(part) == text,
        part matches SpecPart::ToolCall(call) ==> spec_part_text(part) == "Tool call: "@ + call.name,
{
    let f = |p: SpecPart| spec_part_text(p);
    assert(seq![part].map_values(f) =~= seq![spec_part_text(part)]);
    assert(parts.push(part).map_values(f) =~= parts.map_values(f).push(spec_part_text(part)));
    assert(parts.map_values(f).push(spec_part_text(part)).drop_last() =~= parts.map_values(f));
}

pub open spec fn spec_status_text(status: SpecStatus) -> Seq<char> {
    match status {
        SpecStatus::Idle => "Idle"@,
        SpecStatus::Generating => "Generating"@,
        SpecStatus::WaitingForApproval => "Waiting for approval"@,
        SpecStatus::Error { message } => "Error: "@ + message,
    }
}

/// The status line under a thread.
pub fn status_text(status: &ThreadStatus) -> (res: String)
    ensures
        res@ == spec_status_text(status@),
{
    match status {
        ThreadStatus::Idle => "Idle".to_owned(),
        ThreadStatus::Generating => "Generating".to_owned(),
        ThreadStatus::WaitingForApproval => "Waiting for approval".to_owned(),
        ThreadStatus::Error { message } => {
            let mut res = "Error: ".to_owned();
            res.append(message.as_str());
            res
        },
    }
}

/// Re-measuring a message list after the thread changed: deltas only ever touch the
/// trailing message, so the splice starts at the old trailing message (or at the end of
/// a list that grew from empty) and replaces everything after it. Gives the start and end
/// of the replaced range and the number of items that replace it.
pub fn list_splice(message_count: usize, count: usize) -> (res: (usize, usize, usize))
    ensures
        ({
            let changed_from = if count == 0 {
                0
            } else if message_count < count - 1 {
                message_count as int
            } else {
                count - 1
            };
            res == (changed_from as usize, message_count, (count - changed_from) as usize)
        }),
        res.0 <= res.1,
        res.0 <= count,
{
    let last = if count == 0 {
        0
    } else {
        count - 1
    };
    let changed_from = if message_count < last {
        message_count
    } else {
        last
    };
    (changed_from, message_count, count - changed_from)
}

/// A Unicode white space character.
pub open spec fn is_white_space(c: char) -> bool {
    let v = c as u32;
    ||| 0x09 <= v <= 0x0D
    ||| v == 0x20
    ||| v == 0x85
    ||| v == 0xA0
    ||| v == 0x1680
    ||| 0x2000 <= v <= 0x200A
    ||| v == 0x2028
    ||| v == 0x2029
    ||| v == 0x202F
    ||| v == 0x205F
    ||| v == 0x3000
}

fn white_space(c: char) -> (res: bool)
    ensures
        res == is_white_space(c),
{
    let v = c as u32;
    (0x09 <= v && v <= 0x0D) || v == 0x20 || v == 0x85 || v == 0xA0 || v == 0x1680 || (0x2000 <= v
        && v <= 0x200A) || v == 0x2028 || v == 0x2029 || v == 0x202F || v == 0x205F || v == 0x3000
}

/// Whether a text holds nothing but white space; a composer with such text is not sent.
pub fn is_blank(text: &str) -> (res: bool)
    ensures
        res == forall|i: int| 0 <= i < text@.len() ==> is_white_space(#[trigger] text@[i]),
{
    let chars = chars_of(text);
    let mut i: usize = 0;
    while i < chars.len()
        invariant
            0 <= i <= chars.len(),
            chars@ == text@,
            forall|j: int| 0 <= j < i ==> is_white_space(#[trigger] text@[j]),
        decreases chars.len() - i,
    {
        if !white_space(chars[i]) {
            return false;
        }
        i = i + 1;
    }
    true
}

} // verus!
