//! Conversations as Markdown.

use vstd::prelude::*;

use crate::decimal::{decimal, to_decimal};
use crate::text::{has_infix, occurring_is_standing_between};

verus! {

/// Who speaks.
#[derive(PartialEq, Eq, Structural, Clone, Copy)]
pub enum Role {
    User,
    Assistant,
}

/// What a part of a message is.
#[derive(PartialEq, Eq, Structural, Clone, Copy)]
pub enum ContentKind {
    ToolRequest,
    ToolResponse,
    Other,
}

/// A message of a conversation.
pub struct ExportMessage {
    pub role: Role,
    /// What its parts are.
    pub contents: Vec<ContentKind>,
    /// Its parts as Markdown.
    pub text: String,
}

/// A message of the user that only carries the responses of tools.
pub open spec fn only_responses(message: ExportMessage) -> bool {
    message.role == Role::User && forall|i: int|
        0 <= i < message.contents@.len() ==> #[trigger] message.contents@[i]
            == ContentKind::ToolResponse
}

/// The heading of a message. Responses of tools belong to the calls above them and have none.
pub open spec fn heading(message: ExportMessage) -> Seq<char> {
    if only_responses(message) {
        Seq::empty()
    } else if message.role == Role::User {
        "### User:\n"@
    } else {
        "### Assistant:\n"@
    }
}

/// What stands between messages.
pub open spec fn rule() -> Seq<char> {
    "\n\n---\n\n"@
}

/// The messages one after the other, each with its heading and a rule behind it.
pub open spec fn sections(messages: Seq<ExportMessage>) -> Seq<char>
    decreases messages.len(),
{
    if messages.len() == 0 {
        Seq::empty()
    } else {
        sections(messages.drop_last()) + heading(messages.last()) + messages.last().text@ + rule()
    }
}

/// A session as Markdown.
pub open spec fn session_markdown(messages: Seq<ExportMessage>, name: Seq<char>) -> Seq<char> {
    if messages.len() == 0 {
        "# Session Export: "@ + name + "\n\n"@ + "*(This session has no messages)*\n"@
    } else {
        "# Session Export: "@ + name + "\n\n"@ + "*Total messages: "@ + decimal(messages.len())
            + "*\n\n---\n\n"@ + sections(messages)
    }
}

fn has_only_responses(message: &ExportMessage) -> (only: bool)
    ensures
        only == only_responses(*message),
{
    if message.role != Role::User {
        return false;
    }
    let mut i: usize = 0;
    while i < message.contents.len()
        invariant
            i <= message.contents@.len(),
            forall|k: int|
                0 <= k < i ==> #[trigger] message.contents@[k] == ContentKind::ToolResponse,
        decreases message.contents@.len() - i,
    {
        if message.contents[i] != ContentKind::ToolResponse {
            assert(message.contents@[i as int] != ContentKind::ToolResponse);
            return false;
        }
        i = i + 1;
    }
    true
}

/// A session as Markdown: a title, the number of messages, and the messages.
pub fn export_session_to_markdown(messages: &Vec<ExportMessage>, session_name: &str) -> (markdown:
    String)
    ensures
        markdown@ == session_markdown(messages@, session_name@),
{
    let mut markdown = "# Session Export: ".to_string();
    markdown.append(session_name);
    markdown.append("\n\n");
    if messages.len() == 0 {
        markdown.append("*(This session has no messages)*\n");
        return markdown;
    }
    markdown.append("*Total messages: ");
    markdown.append(to_decimal(messages.len() as u64).as_str());
    markdown.append("*\n\n---\n\n");
    let ghost title = markdown@;
    let mut i: usize = 0;
    assert(markdown@ =~= title + sections(messages@.take(0)));
    while i < messages.len()
        invariant
            i <= messages@.len(),
            markdown@ == title + sections(messages@.take(i as int)),
        decreases messages@.len() - i,
    {
        let ghost before = markdown@;
        let message = &messages[i];
        let ghost done = sections(messages@.take(i as int));
        proof {
            assert(messages@.take(i + 1).drop_last() =~= messages@.take(i as int));
            assert(messages@.take(i + 1).last() == *message);
        }
        let only = has_only_responses(message);
        let prefix = if only {
            ""
        } else if message.role == Role::User {
            "### User:\n"
        } else {
            "### Assistant:\n"
        };
        proof {
            reveal_strlit("");
            assert(prefix@ =~= heading(*message));
        }
        markdown.append(prefix);
        markdown.append(message.text.as_str());
        markdown.append("\n\n---\n\n");
        assert(markdown@ =~= title + (done + heading(*message) + message.text@ + rule()));
        i = i + 1;
    }
    assert(messages@.take(i as int) =~= messages@);
    markdown
}

/// A message shows under the heading of its speaker, unless it only carries responses of tools.
pub proof fn headings_name_the_speaker(message: ExportMessage)
    ensures
        message.role == Role::Assistant ==> heading(message) == "### Assistant:\n"@,
        message.role == Role::User && message.contents@.contains(ContentKind::Other) ==> heading(
            message,
        ) == "### User:\n"@,
        message.role == Role::User && message.contents@.contains(ContentKind::ToolRequest)
            ==> heading(message) == "### User:\n"@,
        only_responses(message) ==> heading(message).len() == 0,
{
    if message.contents@.contains(ContentKind::Other) {
        let i = choose|i: int|
            0 <= i < message.contents@.len() && message.contents@[i] == ContentKind::Other;
        assert(message.contents@[i] != ContentKind::ToolResponse);
    }
    if message.contents@.contains(ContentKind::ToolRequest) {
        let i = choose|i: int|
            0 <= i < message.contents@.len() && message.contents@[i] == ContentKind::ToolRequest;
        assert(message.contents@[i] != ContentKind::ToolResponse);
    }
}

/// The export of a conversation that goes on begins like the export of its messages so far, apart
/// from their number.
pub proof fn later_messages_come_behind(messages: Seq<ExportMessage>, more: Seq<ExportMessage>)
    ensures
        sections(messages).is_prefix_of(sections(messages + more)),
    decreases more.len(),
{
    if more.len() == 0 {
        assert(messages + more =~= messages);
    } else {
        let all = messages + more;
        assert(all.drop_last() =~= messages + more.drop_last());
        later_messages_come_behind(messages, more.drop_last());
        let shorter = sections(all.drop_last());
        assert(sections(all) == shorter + heading(all.last()) + all.last().text@ + rule());
        assert(sections(messages) =~= sections(all).take(sections(messages).len() as int));
    }
}

/// Every message is written down by itself: its heading, its text, and a rule behind it.
pub proof fn messages_are_written_one_by_one(
    a: Seq<ExportMessage>,
    b: Seq<ExportMessage>,
    message: ExportMessage,
)
    ensures
        sections(a + b) == sections(a) + sections(b),
        sections(seq![message]) == heading(message) + message.text@ + "\n\n---\n\n"@,
    decreases b.len(),
{
    assert(seq![message].drop_last() =~= Seq::<ExportMessage>::empty());
    assert(sections(Seq::<ExportMessage>::empty()) =~= Seq::<char>::empty());
    assert(sections(seq![message]) =~= heading(message) + message.text@ + "\n\n---\n\n"@);
    if b.len() == 0 {
        assert(a + b =~= a);
        assert(sections(a) + sections(b) =~= sections(a));
    } else {
        messages_are_written_one_by_one(a, b.drop_last(), message);
        assert((a + b).drop_last() =~= a + b.drop_last());
        assert((a + b).last() == b.last());
        assert(sections(a + b) =~= sections(a) + sections(b));
    }
}

/// A message of the user has no heading exactly if each of its parts is the response of a tool;
/// one of the assistant always has one.
pub proof fn only_responses_go_without_heading(message: ExportMessage)
    ensures
        heading(message).len() == 0 <==> message.role == Role::User && forall|i: int|
            0 <= i < message.contents@.len() ==> #[trigger] message.contents@[i]
                == ContentKind::ToolResponse,
        heading(message).len() > 0 && message.role == Role::User ==> heading(message)
            == "### User:\n"@,
{
    reveal_strlit("### User:\n");
    reveal_strlit("### Assistant:\n");
}

/// An export begins with its name, then tells how many messages there are, and ends with them.
pub proof fn exports_begin_with_their_name(messages: Seq<ExportMessage>, name: Seq<char>)
    ensures
        session_markdown(Seq::empty(), name) == "# Session Export: "@ + name
            + "\n\n*(This session has no messages)*\n"@,
        messages.len() > 0 ==> session_markdown(messages, name) == "# Session Export: "@ + name
            + "\n\n*Total messages: "@ + decimal(messages.len()) + "*\n\n---\n\n"@ + sections(
            messages,
        ),
{
    reveal_strlit("\n\n");
    reveal_strlit("*(This session has no messages)*\n");
    reveal_strlit("\n\n*(This session has no messages)*\n");
    reveal_strlit("*Total messages: ");
    reveal_strlit("\n\n*Total messages: ");
    assert("\n\n"@ + "*(This session has no messages)*\n"@
        =~= "\n\n*(This session has no messages)*\n"@);
    assert("\n\n"@ + "*Total messages: "@ =~= "\n\n*Total messages: "@);
    let title = "# Session Export: "@ + name;
    assert(title + "\n\n"@ + "*(This session has no messages)*\n"@ =~= title + ("\n\n"@
        + "*(This session has no messages)*\n"@));
    assert(title + "\n\n"@ + "*Total messages: "@ =~= title + ("\n\n"@ + "*Total messages: "@));
}

proof fn stands_in(
    title: Seq<char>,
    before: Seq<char>,
    head: Seq<char>,
    text: Seq<char>,
    end: Seq<char>,
    after: Seq<char>,
)
    ensures
        ({
            let whole = title + (before + (head + text + end) + after);
            has_infix(whole, text) && has_infix(whole, head + text)
        }),
{
    let whole = title + (before + (head + text + end) + after);
    let tail = end + after;
    assert(whole =~= (title + before) + (head + text) + tail);
    occurring_is_standing_between(title + before, head + text, tail, Seq::empty(), 0);
    assert(whole =~= (title + before + head) + text + tail);
    occurring_is_standing_between(title + before + head, text, tail, Seq::empty(), 0);
}

/// Every message of a conversation stands in its export as it is.
pub proof fn every_message_is_exported(
    messages: &Vec<ExportMessage>,
    name: &str,
    markdown: String,
    i: int,
)
    requires
        call_ensures(export_session_to_markdown, (messages, name), markdown),
        0 <= i < messages@.len(),
    ensures
        has_infix(markdown@, messages@[i].text@),
        has_infix(markdown@, heading(messages@[i]) + messages@[i].text@),
        has_infix(markdown@, name@),
{
    let all = messages@;
    let m = all[i];
    let a = all.take(i);
    let b = all.skip(i + 1);
    assert(all =~= a + seq![m] + b);
    messages_are_written_one_by_one(a + seq![m], b, m);
    messages_are_written_one_by_one(a, seq![m], m);
    exports_begin_with_their_name(all, name@);
    let number = decimal(all.len());
    let begin = "# Session Export: "@;
    let total = "\n\n*Total messages: "@;
    let line = "*\n\n---\n\n"@;
    let end = "\n\n---\n\n"@;
    let x = sections(a);
    let y = sections(b);
    assert(sections(all) == x + (heading(m) + m.text@ + end) + y);
    assert(markdown@ == begin + name@ + total + number + line + sections(all));
    stands_in(begin + name@ + total + number + line, x, heading(m), m.text@, end, y);
    let rest = total + number + line + sections(all);
    assert(markdown@ =~= begin + name@ + rest);
    occurring_is_standing_between(begin, name@, rest, Seq::empty(), 0);
}

} // verus!
