use proxima_backend::ai_interaction::backend_api::{
    BackendError, ChatMessage, MessageRole, OpenAISessionStatus,
};
use proxima_backend::ai_interaction::sessions::{clone_messages, CompletionRequest, SessionTable};
use proxima_backend::database::chats::{SessionID, SessionType};
use proxima_backend::database::configuration::{ChatConfiguration, ChatSetting};
use proxima_backend::database::context::{ContextData, ContextPart, ContextPosition, WholeContext};

fn text(x: &str, position: ContextPosition) -> ContextPart {
    ContextPart::new(vec![ContextData::Text(x.to_string())], position)
}

fn message(role: MessageRole, content: &str) -> ChatMessage {
    ChatMessage { role, content: content.to_string() }
}

fn dialogue() -> WholeContext {
    WholeContext::new(vec![
        text("be brief", ContextPosition::System),
        ContextPart::new(
            vec![ContextData::Text("what is ".to_string()), ContextData::Text("2+2?".to_string())],
            ContextPosition::User,
        ),
    ])
}

fn chat(id: usize) -> SessionID {
    SessionID { id, session_type: SessionType::Chat }
}

#[test]
fn an_opened_session_holds_one_message_for_each_fragment() {
    let mut table = SessionTable::new();
    assert_eq!(table.len(), 0);
    assert_eq!(table.open(dialogue(), SessionType::Chat, None), Some(chat(0)));
    assert_eq!(
        table.open(WholeContext::new(vec![]), SessionType::Function, None),
        Some(SessionID { id: 1, session_type: SessionType::Function })
    );
    assert_eq!(table.len(), 2);
    let session = table.get_session(chat(0)).unwrap();
    assert_eq!(session.id, chat(0));
    assert_eq!(
        session.messages,
        vec![message(MessageRole::System, "be brief"), message(MessageRole::User, "what is 2+2?")]
    );
    assert_eq!(session.context, dialogue());
    assert_eq!(session.get_context(), dialogue());
    assert_eq!(session.config, None);
    assert_eq!(session.waiting_on, None);
    assert_eq!(session.get_response(), None);
    assert!(session.pending);
    assert_eq!(session.status, OpenAISessionStatus::Beginning);
    assert!(table.get_session(SessionID { id: 1, session_type: SessionType::Function }).is_some());
}

#[test]
fn a_session_is_open_under_its_whole_handle_only() {
    let mut table = SessionTable::new();
    table.open(dialogue(), SessionType::Chat, None);
    assert!(table.get_session(chat(0)).is_some());
    assert!(table.get_session(SessionID { id: 0, session_type: SessionType::Function }).is_none());
    assert!(table.get_session(SessionID { id: 0, session_type: SessionType::Completion }).is_none());
    assert!(table.get_session(chat(1)).is_none());
}

#[test]
fn a_dialogue_with_an_image_opens_no_session() {
    let mut table = SessionTable::new();
    let with_image = WholeContext::new(vec![
        text("look", ContextPosition::User),
        ContextPart::new(vec![ContextData::Image(3)], ContextPosition::User),
    ]);
    assert_eq!(table.open(with_image, SessionType::Chat, None), None);
    assert_eq!(table.len(), 0);
}

#[test]
fn tool_and_total_fragments_go_as_tool_messages() {
    let mut table = SessionTable::new();
    let context = WholeContext::new(vec![
        text("a", ContextPosition::AI),
        text("b", ContextPosition::Tool),
        text("c", ContextPosition::Total),
    ]);
    let id = table.open(context, SessionType::Chat, None).unwrap();
    assert_eq!(
        table.get_session(id).unwrap().messages,
        vec![
            message(MessageRole::Assistant, "a"),
            message(MessageRole::Tool, "b"),
            message(MessageRole::Tool, "c"),
        ]
    );
}

#[test]
fn a_session_takes_a_further_prompt_only_after_the_reply() {
    let mut table = SessionTable::new();
    let id = table.open(dialogue(), SessionType::Chat, None).unwrap();
    let before = table.get_session(id).unwrap().get_context();
    assert_eq!(
        table.add_to_session(text("and 3+3?", ContextPosition::User), id),
        Err(BackendError::SessionBusy(id))
    );
    assert_eq!(table.get_session(id).unwrap().context, before);
    assert_eq!(table.get_session(id).unwrap().status, OpenAISessionStatus::Beginning);
    assert_eq!(
        table.add_to_session(text("x", ContextPosition::User), chat(7)),
        Err(BackendError::SessionMissing(chat(7)))
    );
    assert!(table.reply_arrived(id, Some("4".to_string())));
    assert_eq!(table.get_session(id).unwrap().status, OpenAISessionStatus::Standby);
    assert_eq!(table.add_to_session(text("and 3+3?", ContextPosition::User), id), Ok(()));
    let session = table.get_session(id).unwrap();
    assert_eq!(session.status, OpenAISessionStatus::Waiting);
    assert_eq!(session.waiting_on, None);
    assert!(session.pending);
    assert_eq!(session.context.len(), 4);
    assert_eq!(session.context.get_parts()[3], text("and 3+3?", ContextPosition::User));
    assert_eq!(session.messages.len(), 4);
    assert_eq!(session.messages[3], message(MessageRole::User, "and 3+3?"));
    assert_eq!(
        table.add_to_session(text("again", ContextPosition::User), id),
        Err(BackendError::SessionBusy(id))
    );
}

#[test]
fn a_reply_joins_the_dialogue_and_the_messages() {
    let mut table = SessionTable::new();
    let id = table.open(dialogue(), SessionType::Chat, None).unwrap();
    assert_eq!(table.try_get_response_to_latest_prompt_for(id), None);
    assert!(table.reply_arrived(id, Some("4".to_string())));
    let reply = text("4", ContextPosition::AI);
    assert_eq!(table.try_get_response_to_latest_prompt_for(id), Some(reply.clone()));
    let session = table.get_session(id).unwrap();
    assert!(!session.pending);
    assert_eq!(session.context.len(), 3);
    assert_eq!(session.context.get_parts()[2], reply);
    assert_eq!(session.messages[2], message(MessageRole::Assistant, "4"));
    assert_eq!(table.get_whole_current_context_for(id).unwrap().len(), 3);
}

#[test]
fn an_answer_without_text_leaves_no_reply() {
    let mut table = SessionTable::new();
    let id = table.open(dialogue(), SessionType::Chat, None).unwrap();
    assert!(table.reply_arrived(id, None));
    let session = table.get_session(id).unwrap();
    assert_eq!(session.waiting_on, None);
    assert_eq!(session.context, dialogue());
    assert_eq!(session.messages.len(), 3);
    assert_eq!(session.messages[2], message(MessageRole::Assistant, ""));
    assert_eq!(session.status, OpenAISessionStatus::Standby);
    assert!(!session.pending);
    assert_eq!(table.try_get_response_to_latest_prompt_for(id), None);
}

#[test]
fn an_answer_for_no_session_changes_nothing() {
    let mut table = SessionTable::new();
    table.open(dialogue(), SessionType::Chat, None);
    let mut same = SessionTable::new();
    same.open(dialogue(), SessionType::Chat, None);
    assert!(!table.reply_arrived(chat(1), Some("4".to_string())));
    assert!(!table.reply_arrived(SessionID { id: 0, session_type: SessionType::Function }, None));
    assert!(!table.mark_sent(chat(1)));
    assert_eq!(table, same);
    assert_eq!(table.try_get_response_to_latest_prompt_for(chat(1)), None);
    assert_eq!(
        table.get_whole_current_context_for(chat(1)),
        Err(BackendError::SessionMissing(chat(1)))
    );
}

#[test]
fn what_is_asked_of_the_service_follows_the_configuration() {
    let mut table = SessionTable::new();
    let plain = table.open(dialogue(), SessionType::Chat, None).unwrap();
    let config = ChatConfiguration::new(
        "precise".to_string(),
        vec![ChatSetting::Temperature(20), ChatSetting::ResponseTokenLimit(512)],
    );
    let tuned = table.open(dialogue(), SessionType::Chat, Some(config)).unwrap();
    let defaults = ChatConfiguration::new("defaults".to_string(), vec![]);
    let usual = table.open(dialogue(), SessionType::Chat, Some(defaults)).unwrap();
    let messages =
        vec![message(MessageRole::System, "be brief"), message(MessageRole::User, "what is 2+2?")];
    assert_eq!(
        table.completion_request(plain),
        Some(CompletionRequest { messages: clone_messages(&messages), limits: None })
    );
    assert_eq!(
        table.completion_request(tuned),
        Some(CompletionRequest { messages: clone_messages(&messages), limits: Some((512, 20)) })
    );
    assert_eq!(
        table.completion_request(usual),
        Some(CompletionRequest { messages, limits: Some((2048, 70)) })
    );
    assert_eq!(table.completion_request(chat(9)), None);
}

#[test]
fn nothing_is_asked_twice() {
    let mut table = SessionTable::new();
    let first = table.open(dialogue(), SessionType::Chat, None).unwrap();
    let second = table.open(dialogue(), SessionType::Chat, None).unwrap();
    assert!(table.mark_sent(first));
    assert_eq!(table.completion_request(first), None);
    assert_eq!(table.get_session(first).unwrap().status, OpenAISessionStatus::Beginning);
    assert!(table.completion_request(second).is_some());
    assert!(table.reply_arrived(second, Some("4".to_string())));
    assert_eq!(table.completion_request(second), None);
    assert_eq!(table.add_to_session(text("more", ContextPosition::User), second), Ok(()));
    let asked = table.completion_request(second).unwrap();
    assert_eq!(asked.messages.len(), 4);
    assert_eq!(asked.messages[3], message(MessageRole::User, "more"));
}
