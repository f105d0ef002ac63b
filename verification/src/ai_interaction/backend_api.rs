//! What the core asks of a chat-completion service: how a dialogue is put
//! into messages, and what state a session with the service is in.

use crate::database::chats::SessionID;
use crate::database::context::{
    ContextData, ContextDataView, ContextPart, ContextPartView, ContextPosition, WholeContext,
};
use vstd::prelude::*;

verus! {

/// Why a session could not be used.
#[derive(Clone, Copy, PartialEq, Eq, Structural, Debug)]
pub enum BackendError {
    SessionMissing(SessionID),
    SessionBusy(SessionID),
}

/// The state of a session with a chat service.
#[derive(Clone, Copy, PartialEq, Eq, Structural, Debug)]
pub enum OpenAISessionStatus {
    /// The first prompt is on its way.
    Beginning,
    /// A further prompt is on its way.
    Waiting,
    /// The reply has come; the session takes a further prompt.
    Standby,
    /// The session is closed.
    Over,
}

impl OpenAISessionStatus {
    /// Whether the session takes a further prompt.
    pub fn ready(&self) -> (r: bool)
        ensures
            r == (*self == OpenAISessionStatus::Standby),
    {
        match self {
            OpenAISessionStatus::Standby => true,
            _ => false,
        }
    }

    /// The state after a further prompt was added: the session waits, where
    /// it took the prompt; where it was not ready, it is busy and stays as
    /// it was.
    pub fn add_prompt(&mut self, session: SessionID) -> (r: Result<(), BackendError>)
        ensures
            match r {
                Ok(()) => *old(self) == OpenAISessionStatus::Standby && *final(self)
                    == OpenAISessionStatus::Waiting,
                Err(error) => *old(self) != OpenAISessionStatus::Standby && *final(self) == *old(
                    self,
                ) && error == BackendError::SessionBusy(session),
            },
    {
        if self.ready() {
            *self = OpenAISessionStatus::Waiting;
            Ok(())
        } else {
            Err(BackendError::SessionBusy(session))
        }
    }

    /// The state after the reply has come: the session takes a further
    /// prompt, unless it is closed.
    pub fn reply_arrived(&mut self)
        ensures
            *final(self) == if *old(self) == OpenAISessionStatus::Over {
                OpenAISessionStatus::Over
            } else {
                OpenAISessionStatus::Standby
            },
    {
        match self {
            OpenAISessionStatus::Over => {},
            _ => {
                *self = OpenAISessionStatus::Standby;
            },
        }
    }
}

/// Who a message to a chat service is from.
#[derive(Clone, Copy, PartialEq, Eq, Structural, Debug)]
pub enum MessageRole {
    System,
    User,
    Assistant,
    Tool,
}

/// The role that a fragment at `position` is sent under: the system, the
/// user and the model stand for themselves; tools and totals go as tools.
pub open spec fn role_of(position: ContextPosition) -> MessageRole {
    match position {
        ContextPosition::System => MessageRole::System,
        ContextPosition::User => MessageRole::User,
        ContextPosition::AI => MessageRole::Assistant,
        ContextPosition::Total => MessageRole::Tool,
        ContextPosition::Tool => MessageRole::Tool,
    }
}

/// Whether every item of `data` is text.
pub open spec fn all_text(data: Seq<ContextDataView>) -> bool {
    forall|i: int| 0 <= i < data.len() ==> (#[trigger] data[i]) is Text
}

/// A message to a chat service.
#[derive(PartialEq, Eq, Debug)]
pub struct ChatMessage {
    pub role: MessageRole,
    pub content: String,
}

/// The mathematical value of a [`ChatMessage`].
pub struct ChatMessageView {
    pub role: MessageRole,
    pub content: Seq<char>,
}

impl View for ChatMessage {
    type V = ChatMessageView;

    open spec fn view(&self) -> ChatMessageView {
        ChatMessageView { role: self.role, content: self.content@ }
    }
}

/// The values of a sequence of messages.
pub open spec fn message_views(messages: Seq<ChatMessage>) -> Seq<ChatMessageView> {
    messages.map_values(|m: ChatMessage| m@)
}

/// The message that carries `part`.
pub open spec fn message_of(part: ContextPartView) -> ChatMessageView {
    ChatMessageView { role: role_of(part.position), content: part.text() }
}

/// The role that a fragment at `position` is sent under.
pub fn role_for(position: &ContextPosition) -> (r: MessageRole)
    ensures
        r == role_of(*position),
{
    match position {
        ContextPosition::System => MessageRole::System,
        ContextPosition::User => MessageRole::User,
        ContextPosition::AI => MessageRole::Assistant,
        ContextPosition::Total => MessageRole::Tool,
        ContextPosition::Tool => MessageRole::Tool,
    }
}

/// The message that carries `part`; `None` where `part` holds what is no text.
pub fn part_to_message(part: &ContextPart) -> (r: Option<ChatMessage>)
    ensures
        match r {
            Some(message) => all_text(part@.data) && message@ == message_of(part@),
            None => !all_text(part@.data),
        },
{
    let data = part.get_data();
    let mut i: usize = 0;
    while i < data.len()
        invariant
            i <= data.len(),
            crate::database::context::data_views(data@) == part@.data,
            forall|j: int| 0 <= j < i ==> (#[trigger] part@.data[j]) is Text,
        decreases data.len() - i,
    {
        proof {
            assert(part@.data[i as int] == data@[i as int]@);
        }
        match &data[i] {
            ContextData::Text(_) => {},
            ContextData::Image(_) => {
                proof {
                    assert(!(part@.data[i as int] is Text));
                }
                return None;
            },
        }
        i += 1;
    }
    Some(ChatMessage { role: role_for(part.get_position()), content: part.joined_text() })
}

/// The messages that carry `context`, one for each fragment, in order;
/// `None` where a fragment holds what is no text.
pub fn context_to_messages(context: &WholeContext) -> (r: Option<Vec<ChatMessage>>)
    ensures
        match r {
            Some(messages) => {
                &&& forall|i: int| 0 <= i < context@.len() ==> all_text((#[trigger] context@[i]).data)
                &&& message_views(messages@) == context@.map_values(
                    |p: ContextPartView| message_of(p),
                )
            },
            None => exists|i: int| 0 <= i < context@.len() && !all_text(
                (#[trigger] context@[i]).data,
            ),
        },
{
    let parts = context.get_parts();
    let mut messages: Vec<ChatMessage> = Vec::new();
    let mut i: usize = 0;
    while i < parts.len()
        invariant
            i <= parts.len(),
            crate::database::context::part_views(parts@) == context@,
            messages.len() == i,
            forall|j: int| 0 <= j < i ==> all_text((#[trigger] context@[j]).data),
            forall|j: int| 0 <= j < i ==> (#[trigger] messages@[j])@ == message_of(context@[j]),
        decreases parts.len() - i,
    {
        proof {
            assert(context@[i as int] == parts@[i as int]@);
        }
        match part_to_message(&parts[i]) {
            Some(message) => {
                messages.push(message);
            },
            None => {
                return None;
            },
        }
        i += 1;
    }
    proof {
        assert(message_views(messages@) =~= context@.map_values(
            |p: ContextPartView| message_of(p),
        ));
    }
    Some(messages)
}

} // verus!
