//! The sessions that an adapter keeps with a chat service: what is known of
//! each exchange, and how it moves from prompt to reply.

use crate::ai_interaction::backend_api::{
    all_text, context_to_messages, message_of, message_views, role_for, BackendError, ChatMessage,
    ChatMessageView, MessageRole, OpenAISessionStatus,
};
use crate::database::chats::{optional_config, optional_text, SessionID, SessionType};
use crate::database::configuration::{
    max_response_of, temperature_of, ChatConfiguration, ChatConfigurationView,
};
use crate::database::context::{
    data_views, ContextData, ContextDataView, ContextPart, ContextPartView, ContextPosition,
    Prompt, Response, WholeContext,
};
use vstd::prelude::*;

verus! {

/// The value of an optional fragment.
pub open spec fn optional_part(part: Option<ContextPart>) -> Option<ContextPartView> {
    match part {
        Some(p) => Some(p@),
        None => None,
    }
}

/// What is kept of one session.
#[derive(PartialEq, Eq, Debug)]
pub struct OpenAISession {
    /// The handle of the session.
    pub id: SessionID,
    /// What the service is sent.
    pub messages: Vec<ChatMessage>,
    /// The dialogue so far.
    pub context: WholeContext,
    /// The configuration that the session was opened with.
    pub config: Option<ChatConfiguration>,
    /// The reply to the latest prompt, once it has come.
    pub waiting_on: Option<Response>,
    /// Whether a completion is still to be asked of the service.
    pub pending: bool,
    /// The state of the session.
    pub status: OpenAISessionStatus,
}

/// The mathematical value of an [`OpenAISession`].
pub struct OpenAISessionView {
    pub id: SessionID,
    pub messages: Seq<ChatMessageView>,
    pub context: Seq<ContextPartView>,
    pub config: Option<ChatConfigurationView>,
    pub waiting_on: Option<ContextPartView>,
    pub pending: bool,
    pub status: OpenAISessionStatus,
}

impl View for OpenAISession {
    type V = OpenAISessionView;

    open spec fn view(&self) -> OpenAISessionView {
        OpenAISessionView {
            id: self.id,
            messages: message_views(self.messages@),
            context: self.context@,
            config: optional_config(self.config),
            waiting_on: optional_part(self.waiting_on),
            pending: self.pending,
            status: self.status,
        }
    }
}

impl OpenAISession {
    /// The dialogue so far.
    pub fn get_context(&self) -> (r: WholeContext)
        ensures
            r@ == self@.context,
    {
        self.context.clone()
    }

    /// The reply to the latest prompt, once it has come.
    pub fn get_response(&self) -> (r: Option<Response>)
        ensures
            optional_part(r) == self@.waiting_on,
    {
        match &self.waiting_on {
            Some(reply) => Some(reply.clone()),
            None => None,
        }
    }
}

/// What is asked of the service for a session: the messages, and with a
/// configuration the most tokens of the reply and the temperature in
/// hundredths.
#[derive(PartialEq, Eq, Debug)]
pub struct CompletionRequest {
    pub messages: Vec<ChatMessage>,
    pub limits: Option<(usize, u64)>,
}

/// The mathematical value of a [`CompletionRequest`].
pub struct CompletionRequestView {
    pub messages: Seq<ChatMessageView>,
    pub limits: Option<(usize, u64)>,
}

impl View for CompletionRequest {
    type V = CompletionRequestView;

    open spec fn view(&self) -> CompletionRequestView {
        CompletionRequestView { messages: message_views(self.messages@), limits: self.limits }
    }
}

/// The fragment that holds the reply `text` of the model.
pub open spec fn reply_part(text: Seq<char>) -> ContextPartView {
    ContextPartView { data: seq![ContextDataView::Text(text)], position: ContextPosition::AI }
}

/// The session `id` as it is opened with `context` and `config`: it holds
/// one message for each fragment, a completion is to be asked, and no reply
/// has come.
pub open spec fn session_opened(
    id: SessionID,
    context: Seq<ContextPartView>,
    config: Option<ChatConfigurationView>,
) -> OpenAISessionView {
    OpenAISessionView {
        id,
        messages: context.map_values(|p: ContextPartView| message_of(p)),
        context,
        config,
        waiting_on: None,
        pending: true,
        status: OpenAISessionStatus::Beginning,
    }
}

/// A session after it took the further prompt `prompt`: the prompt joins
/// the dialogue and the messages, the reply that had come is dropped, and a
/// completion is to be asked.
pub open spec fn session_prompted(session: OpenAISessionView, prompt: ContextPartView)
    -> OpenAISessionView {
    OpenAISessionView {
        messages: session.messages.push(message_of(prompt)),
        context: session.context.push(prompt),
        waiting_on: None,
        pending: true,
        status: OpenAISessionStatus::Waiting,
        ..session
    }
}

/// The state of a session after the reply has come.
pub open spec fn status_after_reply(status: OpenAISessionStatus) -> OpenAISessionStatus {
    if status == OpenAISessionStatus::Over {
        OpenAISessionStatus::Over
    } else {
        OpenAISessionStatus::Standby
    }
}

/// A session after the service has answered with `text`, or without any:
/// the text is the reply and joins the dialogue; the messages get one of
/// the model with the text, or with none; nothing is left to ask.
pub open spec fn session_replied(session: OpenAISessionView, text: Option<Seq<char>>)
    -> OpenAISessionView {
    OpenAISessionView {
        messages: session.messages.push(
            ChatMessageView {
                role: MessageRole::Assistant,
                content: match text {
                    Some(t) => t,
                    None => Seq::empty(),
                },
            },
        ),
        context: match text {
            Some(t) => session.context.push(reply_part(t)),
            None => session.context,
        },
        waiting_on: match text {
            Some(t) => Some(reply_part(t)),
            None => None,
        },
        pending: false,
        status: status_after_reply(session.status),
        ..session
    }
}

/// What is asked of the service for `session`.
pub open spec fn request_of(session: OpenAISessionView) -> CompletionRequestView {
    CompletionRequestView {
        messages: session.messages,
        limits: match session.config {
            Some(config) => Some(
                (max_response_of(config.raw_settings), temperature_of(config.raw_settings)),
            ),
            None => None,
        },
    }
}

/// Whether `sessions` hold a session under the handle `id`.
pub open spec fn session_is_open(sessions: Seq<OpenAISessionView>, id: SessionID) -> bool {
    id.id < sessions.len() && sessions[id.id as int].id == id
}

/// Whether every fragment of `context` holds text alone.
pub open spec fn all_parts_text(context: Seq<ContextPartView>) -> bool {
    forall|i: int| 0 <= i < context.len() ==> all_text((#[trigger] context[i]).data)
}

/// The values of a sequence of sessions.
pub open spec fn session_views(sessions: Seq<OpenAISession>) -> Seq<OpenAISessionView> {
    sessions.map_values(|s: OpenAISession| s@)
}

/// Copies messages.
pub fn clone_messages(messages: &Vec<ChatMessage>) -> (r: Vec<ChatMessage>)
    ensures
        message_views(r@) == message_views(messages@),
{
    let mut r: Vec<ChatMessage> = Vec::new();
    let mut i: usize = 0;
    while i < messages.len()
        invariant
            i <= messages.len(),
            r.len() == i,
            forall|j: int| 0 <= j < i ==> (#[trigger] r@[j])@ == messages@[j]@,
        decreases messages.len() - i,
    {
        r.push(ChatMessage { role: messages[i].role, content: messages[i].content.clone() });
        i += 1;
    }
    proof {
        assert(message_views(r@) =~= message_views(messages@));
    }
    r
}

/// The sessions of one adapter, each at the position that the number of its
/// handle gives.
#[derive(PartialEq, Eq, Debug)]
pub struct SessionTable {
    sessions: Vec<OpenAISession>,
}

impl View for SessionTable {
    type V = Seq<OpenAISessionView>;

    closed spec fn view(&self) -> Seq<OpenAISessionView> {
        session_views(self.sessions@)
    }
}

impl SessionTable {
    /// Whether every session is open under its own handle.
    pub open spec fn wf(&self) -> bool {
        forall|i: int| 0 <= i < self@.len() ==> (#[trigger] self@[i]).id.id == i
    }

    /// No sessions.
    pub fn new() -> (r: SessionTable)
        ensures
            r@ == Seq::<OpenAISessionView>::empty(),
            r.wf(),
    {
        let sessions: Vec<OpenAISession> = Vec::new();
        proof {
            assert(session_views(sessions@) =~= Seq::<OpenAISessionView>::empty());
        }
        SessionTable { sessions }
    }

    /// The number of sessions.
    pub fn len(&self) -> (r: usize)
        ensures
            r == self@.len(),
    {
        self.sessions.len()
    }

    /// The session under the handle `id`, if it is open.
    pub fn get_session(&self, id: SessionID) -> (r: Option<&OpenAISession>)
        ensures
            match r {
                Some(session) => session_is_open(self@, id) && session@ == self@[id.id as int],
                None => !session_is_open(self@, id),
            },
    {
        if id.id < self.sessions.len() {
            let session = &self.sessions[id.id];
            if session.id == id {
                return Some(session);
            }
        }
        None
    }

    /// Opens a session for the dialogue `new_prompt` and returns its
    /// handle; the number of the handle is the number of sessions before.
    /// A dialogue that holds what is no text is refused, and nothing
    /// changes.
    pub fn open(
        &mut self,
        new_prompt: WholeContext,
        session_type: SessionType,
        config: Option<ChatConfiguration>,
    ) -> (r: Option<SessionID>)
        ensures
            match r {
                Some(id) => {
                    &&& all_parts_text(new_prompt@)
                    &&& id == (SessionID { id: old(self)@.len() as usize, session_type })
                    &&& final(self)@ == old(self)@.push(
                        session_opened(id, new_prompt@, optional_config(config)),
                    )
                },
                None => !all_parts_text(new_prompt@) && final(self)@ == old(self)@,
            },
            old(self).wf() ==> final(self).wf(),
    {
        let messages = match context_to_messages(&new_prompt) {
            Some(messages) => messages,
            None => {
                return None;
            },
        };
        let id = SessionID { id: self.sessions.len(), session_type };
        let session = OpenAISession {
            id,
            messages,
            context: new_prompt,
            config,
            waiting_on: None,
            pending: true,
            status: OpenAISessionStatus::Beginning,
        };
        let ghost before = self.sessions@;
        self.sessions.push(session);
        proof {
            assert(session_views(self.sessions@) =~= session_views(before).push(session@));
        }
        Some(id)
    }

    /// Adds the further prompt `new_prompt` to the session `id`. A session
    /// that is not open is missing; one that has no reply yet is busy; in
    /// both cases nothing changes. A session that takes the prompt takes
    /// text alone.
    pub fn add_to_session(&mut self, new_prompt: Prompt, id: SessionID) -> (r: Result<
        (),
        BackendError,
    >)
        requires
            session_is_open(old(self)@, id) && old(self)@[id.id as int].status
                == OpenAISessionStatus::Standby ==> all_text(new_prompt@.data),
        ensures
            r == if !session_is_open(old(self)@, id) {
                Err::<(), BackendError>(BackendError::SessionMissing(id))
            } else if old(self)@[id.id as int].status != OpenAISessionStatus::Standby {
                Err::<(), BackendError>(BackendError::SessionBusy(id))
            } else {
                Ok::<(), BackendError>(())
            },
            final(self)@ == if r is Ok {
                old(self)@.update(
                    id.id as int,
                    session_prompted(old(self)@[id.id as int], new_prompt@),
                )
            } else {
                old(self)@
            },
            old(self).wf() ==> final(self).wf(),
    {
        if self.get_session(id).is_none() {
            return Err(BackendError::SessionMissing(id));
        }
        let ghost before = self.sessions@;
        proof {
            assert(self@[id.id as int] == before[id.id as int]@);
        }
        let session = &mut self.sessions[id.id];
        match session.status.add_prompt(id) {
            Ok(()) => {},
            Err(error) => {
                proof {
                    assert(session_views(self.sessions@) =~= session_views(before));
                }
                return Err(error);
            },
        }
        let message = ChatMessage {
            role: role_for(new_prompt.get_position()),
            content: new_prompt.joined_text(),
        };
        let ghost messages_before = session.messages@;
        session.context.add_part(new_prompt);
        session.waiting_on = None;
        session.messages.push(message);
        session.pending = true;
        proof {
            assert(message_views(session.messages@) =~= message_views(messages_before).push(
                message@,
            ));
            assert(session_views(self.sessions@) =~= session_views(before).update(
                id.id as int,
                session_prompted(before[id.id as int]@, new_prompt@),
            ));
        }
        Ok(())
    }

    /// What is to be asked of the service for the session `id`; `None`
    /// where the session is not open or nothing is left to ask.
    pub fn completion_request(&self, id: SessionID) -> (r: Option<CompletionRequest>)
        ensures
            match r {
                Some(request) => session_is_open(self@, id) && self@[id.id as int].pending
                    && request@ == request_of(self@[id.id as int]),
                None => !(session_is_open(self@, id) && self@[id.id as int].pending),
            },
    {
        match self.get_session(id) {
            Some(session) => {
                if session.pending {
                    let limits = match &session.config {
                        Some(config) => Some((config.get_max_response(), config.get_temp())),
                        None => None,
                    };
                    Some(CompletionRequest { messages: clone_messages(&session.messages), limits })
                } else {
                    None
                }
            },
            None => None,
        }
    }

    /// Notes that what was to be asked for the session `id` has been sent,
    /// and returns whether the session is open.
    pub fn mark_sent(&mut self, id: SessionID) -> (r: bool)
        ensures
            r == session_is_open(old(self)@, id),
            final(self)@ == if r {
                old(self)@.update(
                    id.id as int,
                    OpenAISessionView { pending: false, ..old(self)@[id.id as int] },
                )
            } else {
                old(self)@
            },
            old(self).wf() ==> final(self).wf(),
    {
        if self.get_session(id).is_none() {
            return false;
        }
        let ghost before = self.sessions@;
        proof {
            assert(self@[id.id as int] == before[id.id as int]@);
        }
        self.sessions[id.id].pending = false;
        proof {
            assert(session_views(self.sessions@) =~= session_views(before).update(
                id.id as int,
                OpenAISessionView { pending: false, ..before[id.id as int]@ },
            ));
        }
        true
    }

    /// Takes in the answer of the service for the session `id`: `text`,
    /// where the answer holds any. Returns whether the session is open;
    /// where it is not, nothing changes.
    pub fn reply_arrived(&mut self, id: SessionID, text: Option<String>) -> (r: bool)
        ensures
            r == session_is_open(old(self)@, id),
            final(self)@ == if r {
                old(self)@.update(
                    id.id as int,
                    session_replied(old(self)@[id.id as int], optional_text(text)),
                )
            } else {
                old(self)@
            },
            old(self).wf() ==> final(self).wf(),
    {
        if self.get_session(id).is_none() {
            return false;
        }
        let ghost before = self.sessions@;
        let ghost heard = optional_text(text);
        proof {
            assert(self@[id.id as int] == before[id.id as int]@);
        }
        let session = &mut self.sessions[id.id];
        let ghost messages_before = session.messages@;
        session.status.reply_arrived();
        session.pending = false;
        match text {
            Some(message) => {
                let mut data: Vec<ContextData> = Vec::new();
                data.push(ContextData::Text(message.clone()));
                proof {
                    assert(data_views(data@) =~= seq![ContextDataView::Text(message@)]);
                }
                let reply = ContextPart::new(data, ContextPosition::AI);
                session.context.add_part(reply.clone());
                session.waiting_on = Some(reply);
                session.messages.push(ChatMessage { role: MessageRole::Assistant, content: message });
            },
            None => {
                session.waiting_on = None;
                session.messages.push(
                    ChatMessage { role: MessageRole::Assistant, content: String::new() },
                );
            },
        }
        proof {
            assert(message_views(session.messages@) =~= message_views(messages_before).push(
                session.messages@.last()@,
            ));
            assert(session_views(self.sessions@) =~= session_views(before).update(
                id.id as int,
                session_replied(before[id.id as int]@, heard),
            ));
        }
        true
    }

    /// The reply to the latest prompt of the session `id`, where the
    /// session is open and the reply has come.
    pub fn try_get_response_to_latest_prompt_for(&self, id: SessionID) -> (r: Option<Response>)
        ensures
            optional_part(r) == if session_is_open(self@, id) {
                self@[id.id as int].waiting_on
            } else {
                None
            },
    {
        match self.get_session(id) {
            Some(session) => session.get_response(),
            None => None,
        }
    }

    /// The dialogue of the session `id` as it stands; a session that is not
    /// open is missing.
    pub fn get_whole_current_context_for(&self, id: SessionID) -> (r: Result<
        WholeContext,
        BackendError,
    >)
        ensures
            match r {
                Ok(context) => session_is_open(self@, id) && context@ == self@[id.id as int].context,
                Err(error) => !session_is_open(self@, id) && error == BackendError::SessionMissing(
                    id,
                ),
            },
    {
        match self.get_session(id) {
            Some(session) => Ok(session.get_context()),
            None => Err(BackendError::SessionMissing(id)),
        }
    }
}

/// A session that was opened is open under the handle that was returned,
/// and takes no further prompt before the reply has come.
pub proof fn lemma_opened_session_waits(
    sessions: Seq<OpenAISessionView>,
    id: SessionID,
    context: Seq<ContextPartView>,
    config: Option<ChatConfigurationView>,
)
    requires
        id.id == sessions.len(),
    ensures
        session_is_open(sessions.push(session_opened(id, context, config)), id),
        sessions.push(session_opened(id, context, config))[id.id as int].status
            != OpenAISessionStatus::Standby,
{
}

/// Once the reply has come, a session that is not closed takes a further
/// prompt, and with the prompt it waits again.
pub proof fn lemma_reply_makes_ready(
    session: OpenAISessionView,
    text: Option<Seq<char>>,
    prompt: ContextPartView,
)
    requires
        session.status != OpenAISessionStatus::Over,
    ensures
        session_replied(session, text).status == OpenAISessionStatus::Standby,
        session_prompted(session_replied(session, text), prompt).status
            == OpenAISessionStatus::Waiting,
        session_prompted(session_replied(session, text), prompt).waiting_on is None,
{
}

} // verus!
