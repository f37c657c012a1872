//! Conversation messages as providers exchange them.
use vstd::prelude::*;

verus! {

broadcast use vstd::string::group_string_axioms;

#[derive(Debug, Clone, Copy, PartialEq, Eq, Structural)]
pub enum Role {
    User,
    Assistant,
}

#[derive(Debug, PartialEq, Eq)]
pub enum ContentBlock {
    Text(String),
    Thinking(String),
    /// A tool call; `input` is the JSON document of its arguments.
    ToolCall { id: String, name: String, input: String },
    ToolResult { tool_use_id: String, content: String, is_error: bool },
    Image { data: String },
    ProviderState { data: String },
}

impl Clone for ContentBlock {
    fn clone(&self) -> (copy: Self)
        ensures
            copy == *self,
    {
        match self {
            ContentBlock::Text(text) => ContentBlock::Text(text.clone()),
            ContentBlock::Thinking(text) => ContentBlock::Thinking(text.clone()),
            ContentBlock::ToolCall { id, name, input } => ContentBlock::ToolCall {
                id: id.clone(),
                name: name.clone(),
                input: input.clone(),
            },
            ContentBlock::ToolResult { tool_use_id, content, is_error } =>
                ContentBlock::ToolResult {
                tool_use_id: tool_use_id.clone(),
                content: content.clone(),
                is_error: *is_error,
            },
            ContentBlock::Image { data } => ContentBlock::Image { data: data.clone() },
            ContentBlock::ProviderState { data } => ContentBlock::ProviderState {
                data: data.clone(),
            },
        }
    }
}

#[derive(Debug, PartialEq, Eq)]
pub struct Message {
    pub role: Role,
    pub content: Vec<ContentBlock>,
}

/// Whether two messages are the same.
pub open spec fn same_message(a: Message, b: Message) -> bool {
    a.role == b.role && a.content@ == b.content@
}

/// Whether two conversations are the same.
pub open spec fn same_messages(a: Seq<Message>, b: Seq<Message>) -> bool {
    &&& a.len() == b.len()
    &&& forall|i: int| 0 <= i < a.len() ==> same_message(#[trigger] a[i], b[i])
}

impl Clone for Message {
    fn clone(&self) -> (copy: Self)
        ensures
            same_message(*self, copy),
    {
        let content = self.content.clone();
        assert(content@ =~= self.content@);
        Message { role: self.role, content }
    }
}

/// A copy of a conversation.
pub fn copy_messages(messages: &[Message]) -> (copy: Vec<Message>)
    ensures
        same_messages(messages@, copy@),
{
    let mut copy: Vec<Message> = Vec::new();
    let mut i: usize = 0;
    while i < messages.len()
        invariant
            i <= messages@.len(),
            copy@.len() == i,
            forall|j: int| 0 <= j < i ==> same_message(#[trigger] messages@[j], copy@[j]),
        decreases messages@.len() - i,
    {
        copy.push(messages[i].clone());
        i = i + 1;
    }
    copy
}

impl Message {
    /// A user message with one text block.
    pub fn user(text: &str) -> (message: Self)
        ensures
            message.role == Role::User,
            message.content@.len() == 1,
            message.content@[0] matches ContentBlock::Text(content) && content@ == text@,
    {
        Message { role: Role::User, content: vec![ContentBlock::Text(text.to_owned())] }
    }

    /// An assistant message with one text block.
    pub fn assistant(text: &str) -> (message: Self)
        ensures
            message.role == Role::Assistant,
            message.content@.len() == 1,
            message.content@[0] matches ContentBlock::Text(content) && content@ == text@,
    {
        Message { role: Role::Assistant, content: vec![ContentBlock::Text(text.to_owned())] }
    }
}

} // verus!
