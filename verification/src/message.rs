use vstd::prelude::*;
use crate::function::ToolResult;
use crate::text::push_str;

verus! {

/// Who speaks a message.
#[derive(Debug, Clone, Copy, PartialEq, Eq, Structural)]
pub enum MessageRole {
    System,
    Assistant,
    User,
}

impl MessageRole {
    pub open spec fn spec_name(self) -> Seq<char> {
        match self {
            MessageRole::System => "system"@,
            MessageRole::Assistant => "assistant"@,
            MessageRole::User => "user"@,
        }
    }

    /// The name the role has in request bodies.
    pub fn name(&self) -> (res: &'static str)
        ensures
            res@ == self.spec_name(),
    {
        match self {
            MessageRole::System => "system",
            MessageRole::Assistant => "assistant",
            MessageRole::User => "user",
        }
    }

    pub fn is_system(&self) -> (res: bool)
        ensures
            res == (*self == MessageRole::System),
    {
        match self {
            MessageRole::System => true,
            _ => false,
        }
    }

    pub fn is_user(&self) -> (res: bool)
        ensures
            res == (*self == MessageRole::User),
    {
        match self {
            MessageRole::User => true,
            _ => false,
        }
    }

    pub fn is_assistant(&self) -> (res: bool)
        ensures
            res == (*self == MessageRole::Assistant),
    {
        match self {
            MessageRole::Assistant => true,
            _ => false,
        }
    }
}

/// The address of an image, a `data:` URL or a network URL.
pub struct ImageUrl {
    pub url: String,
}

/// One part of a multi-part message.
pub enum MessageContentPart {
    Text { text: String },
    ImageUrl { image_url: ImageUrl },
}

/// Tool calls the assistant made, with their results, and the text that
/// came with them.
pub struct MessageContentToolCalls {
    pub tool_results: Vec<ToolResult>,
    pub text: String,
    pub sequence: bool,
}

impl MessageContentToolCalls {
    pub fn new(tool_results: Vec<ToolResult>, text: String) -> (res: Self)
        ensures
            res.tool_results == tool_results,
            res.text == text,
            !res.sequence,
    {
        MessageContentToolCalls { tool_results, text, sequence: false }
    }

    /// Adds the results of a further round of calls.
    pub fn merge(&mut self, tool_results: Vec<ToolResult>, text: String)
        ensures
            final(self).tool_results@ == old(self).tool_results@ + tool_results@,
            final(self).text@ == Seq::<char>::empty(),
            final(self).sequence,
    {
        let mut tool_results = tool_results;
        self.tool_results.append(&mut tool_results);
        self.text = String::new();
        self.sequence = true;
    }
}

/// What a message says.
pub enum MessageContent {
    Text(String),
    Array(Vec<MessageContentPart>),
    ToolCalls(MessageContentToolCalls),
}

/// A chat message.
pub struct Message {
    pub role: MessageRole,
    pub content: MessageContent,
}

impl Message {
    pub fn new(role: MessageRole, content: MessageContent) -> (res: Self)
        ensures
            res.role == role,
            res.content == content,
    {
        Message { role, content }
    }
}

/// The texts of the text parts among the first `n` parts, joined by a
/// blank line.
pub open spec fn parts_text(parts: Seq<MessageContentPart>, n: nat) -> Seq<char>
    decreases n,
{
    if n == 0 || n > parts.len() {
        Seq::empty()
    } else {
        let before = parts_text(parts, (n - 1) as nat);
        match parts[n - 1] {
            MessageContentPart::Text { text } => if parts_have_text(parts, (n - 1) as nat) {
                before + "\n\n"@ + text@
            } else {
                text@
            },
            _ => before,
        }
    }
}

/// Some of the first `n` parts is a text part.
pub open spec fn parts_have_text(parts: Seq<MessageContentPart>, n: nat) -> bool {
    exists|i: int| 0 <= i < n && i < parts.len() && parts[i] is Text
}

proof fn lemma_parts_text_empty(parts: Seq<MessageContentPart>, n: nat)
    requires
        !parts_have_text(parts, n),
    ensures
        parts_text(parts, n) == Seq::<char>::empty(),
    decreases n,
{
    if n > 0 && n <= parts.len() {
        assert(!parts_have_text(parts, (n - 1) as nat));
        lemma_parts_text_empty(parts, (n - 1) as nat);
        assert(!(parts[n - 1] is Text));
    }
}

/// The plain text of a message's content.
pub open spec fn content_text(c: MessageContent) -> Seq<char> {
    match c {
        MessageContent::Text(t) => t@,
        MessageContent::Array(parts) => parts_text(parts@, parts@.len()),
        MessageContent::ToolCalls(_) => Seq::empty(),
    }
}

impl MessageContent {
    /// The plain text of the content: its text, the text parts joined by
    /// blank lines, or nothing for tool calls.
    pub fn to_text(&self) -> (res: String)
        ensures
            res@ == content_text(*self),
    {
        match self {
            MessageContent::Text(t) => t.clone(),
            MessageContent::Array(parts) => {
                let mut out = String::new();
                let mut any = false;
                let mut i: usize = 0;
                while i < parts.len()
                    invariant
                        i <= parts@.len(),
                        out@ == parts_text(parts@, i as nat),
                        any == parts_have_text(parts@, i as nat),
                    decreases parts.len() - i,
                {
                    match &parts[i] {
                        MessageContentPart::Text { text } => {
                            if any {
                                push_str(&mut out, "\n\n");
                            } else {
                                proof {
                                    lemma_parts_text_empty(parts@, i as nat);
                                }
                            }
                            push_str(&mut out, text.as_str());
                            any = true;
                            assert(parts@[i as int] is Text);
                        },
                        _ => {
                            assert(parts_have_text(parts@, (i + 1) as nat) == parts_have_text(
                                parts@,
                                i as nat,
                            )) by {
                                if parts_have_text(parts@, (i + 1) as nat) {
                                    let k = choose|k: int|
                                        0 <= k < i + 1 && k < parts@.len() && parts@[k] is Text;
                                    assert(k != i);
                                }
                            }
                        },
                    }
                    i = i + 1;
                }
                out
            },
            MessageContent::ToolCalls(_) => String::new(),
        }
    }
}

/// The system prompt a message list opens with, if any.
pub open spec fn system_prompt(ms: Seq<Message>) -> Option<Seq<char>> {
    if ms.len() > 0 && ms[0].role == MessageRole::System {
        Some(content_text(ms[0].content))
    } else {
        None
    }
}

/// The messages that follow the system prompt.
pub open spec fn after_system(ms: Seq<Message>) -> Seq<Message> {
    if ms.len() > 0 && ms[0].role == MessageRole::System {
        ms.drop_first()
    } else {
        ms
    }
}

/// Takes the opening system message out of the list, giving its text.
pub fn extract_system_message(messages: &mut Vec<Message>) -> (res: Option<String>)
    ensures
        match res {
            Some(s) => system_prompt(old(messages)@) == Some(s@),
            None => system_prompt(old(messages)@) is None,
        },
        final(messages)@ == after_system(old(messages)@),
{
    if messages.len() > 0 && messages[0].role.is_system() {
        let m = messages.remove(0);
        assert(old(messages)@.drop_first() =~= messages@);
        Some(m.content.to_text())
    } else {
        None
    }
}

} // verus!
