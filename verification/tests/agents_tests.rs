use proxima_backend::ai_interaction::agents::{
    agent_chat, agent_chat_continued, agent_configuration, agent_follow_up, agent_opening,
    user_turn_of,
};
use proxima_backend::ai_interaction::tools::ProximaTool;
use proxima_backend::database::configuration::{ChatConfiguration, ChatSetting};
use proxima_backend::database::context::{ContextData, ContextPart, ContextPosition, WholeContext};
use std::collections::HashSet;

fn part(x: &str, position: ContextPosition) -> ContextPart {
    ContextPart::new(vec![ContextData::Text(x.to_string())], position)
}

fn turn(x: &str) -> ContextPart {
    ContextPart::new(
        vec![
            ContextData::Text("<user_prompt>\n".to_string()),
            ContextData::Text(x.to_string()),
            ContextData::Text("</user_prompt>\n".to_string()),
        ],
        ContextPosition::User,
    )
}

#[test]
fn an_agent_is_configured_with_its_tools_in_order() {
    let settings = agent_configuration(&vec![ProximaTool::Calculator, ProximaTool::LocalMemory]);
    assert_eq!(settings.name, "agent");
    assert_eq!(settings.id, 0);
    assert_eq!(
        settings.get_raw_settings(),
        &vec![
            ChatSetting::Tool(ProximaTool::Calculator, None),
            ChatSetting::Tool(ProximaTool::LocalMemory, None),
        ]
    );
    let tools = settings.get_tools().as_ref().unwrap();
    assert_eq!(tools.get_used_tools(), &vec![ProximaTool::Calculator, ProximaTool::LocalMemory]);
    assert!(settings.tags.is_empty());
    assert_eq!(settings.access_modes, HashSet::from([0]));
    assert!(settings.is_well_formed());
    let bare = agent_configuration(&vec![]);
    assert!(bare.get_raw_settings().is_empty());
    assert_eq!(bare.get_tools(), &None);
}

#[test]
fn the_turn_of_the_user_is_marked() {
    assert_eq!(user_turn_of("2+2 please".to_string()), turn("2+2 please"));
    assert_eq!(user_turn_of(String::new()), turn(""));
}

#[test]
fn an_agent_starts_from_its_system_prompt_and_one_turn() {
    let settings = agent_configuration(&vec![ProximaTool::Calculator]);
    let opening = agent_opening("2+2 please".to_string(), &settings);
    assert_eq!(
        opening,
        WholeContext::new_with_all_settings(vec![turn("2+2 please")], &settings)
    );
    assert_eq!(opening.get_parts()[0], settings.get_full_system_prompt());
    assert_eq!(opening.get_parts()[1], turn("2+2 please"));
    let plain = ChatConfiguration::new("plain".to_string(), vec![]);
    let short = agent_opening("hi".to_string(), &plain);
    assert_eq!(short.len(), 2);
    assert_eq!(short.get_parts()[1], turn("hi"));
}

#[test]
fn the_chat_of_an_agent_keeps_its_dialogue_and_settings() {
    let settings = agent_configuration(&vec![ProximaTool::Calculator]);
    let context = WholeContext::new(vec![turn("2+2 please"), part("<response>4</response>", ContextPosition::AI)]);
    let chat = agent_chat(context.clone(), settings);
    assert_eq!(chat.id, 0);
    assert_eq!(chat.context, context);
    assert_eq!(chat.chat_title, None);
    assert_eq!(chat.session_id, None);
    assert_eq!(chat.origin_device, 0);
    assert!(chat.waiting_on_response);
    assert!(chat.tags.is_empty());
    assert_eq!(chat.access_modes, HashSet::from([0]));
    assert_eq!(chat.config, None);
    assert_eq!(chat.latest_used_config.as_ref().unwrap().name, "agent");
    assert_eq!(chat.start_date, chat.latest_message);
    assert!(chat.is_well_formed());
    let asked = agent_chat(WholeContext::new(vec![turn("x")]), agent_configuration(&vec![]));
    assert!(!asked.waiting_on_response);
    let empty = agent_chat(WholeContext::new(vec![]), agent_configuration(&vec![]));
    assert!(!empty.waiting_on_response);
    assert!(empty.is_well_formed());
}

#[test]
fn a_further_message_reuses_the_settings_of_the_chat() {
    let settings = ChatConfiguration::new(
        "tuned".to_string(),
        vec![ChatSetting::Temperature(10), ChatSetting::Tool(ProximaTool::Calculator, None)],
    );
    let context = WholeContext::new(vec![turn("a"), part("b", ContextPosition::AI)]);
    let mut chat = agent_chat(context, settings);
    let (used, next) = agent_follow_up(&chat, "and now?".to_string());
    assert_eq!(Some(used), chat.latest_used_config);
    assert_eq!(next.len(), 3);
    assert_eq!(next.get_parts()[0], turn("a"));
    assert_eq!(next.get_parts()[1], part("b", ContextPosition::AI));
    assert_eq!(next.get_parts()[2], turn("and now?"));
    assert_eq!(chat.context.len(), 2);
    chat.latest_used_config = None;
    let (fallback, again) = agent_follow_up(&chat, "hm".to_string());
    assert_eq!(fallback.name, "agent");
    assert!(fallback.get_raw_settings().is_empty());
    assert_eq!(again.get_parts()[2], turn("hm"));
}

#[test]
fn the_chat_takes_what_the_dialogue_holds_beyond_it() {
    let known = WholeContext::new(vec![turn("a"), part("b", ContextPosition::AI)]);
    let chat = agent_chat(known.clone(), agent_configuration(&vec![]));
    let whole = WholeContext::new(vec![
        turn("a"),
        part("b", ContextPosition::AI),
        turn("c"),
        part("d", ContextPosition::AI),
    ]);
    let grown = agent_chat_continued(chat, &whole);
    assert_eq!(grown.context, whole);
    assert!(grown.waiting_on_response);
    assert!(grown.is_well_formed());
    assert_eq!(grown.id, 0);

    let asked = WholeContext::new(vec![turn("a"), part("b", ContextPosition::AI), turn("c")]);
    let waiting = agent_chat_continued(agent_chat(known.clone(), agent_configuration(&vec![])), &asked);
    assert_eq!(waiting.context, asked);
    assert!(!waiting.waiting_on_response);
}

#[test]
fn a_dialogue_that_holds_no_more_leaves_the_chat_as_it_was() {
    let known = WholeContext::new(vec![turn("a"), part("b", ContextPosition::AI)]);
    let chat = agent_chat(known.clone(), agent_configuration(&vec![]));
    let same = agent_chat_continued(chat.clone(), &known);
    assert_eq!(same, chat);
    let shorter = agent_chat_continued(chat.clone(), &WholeContext::new(vec![turn("z")]));
    assert_eq!(shorter, chat);
    let none = agent_chat_continued(chat.clone(), &WholeContext::new(vec![]));
    assert_eq!(none, chat);
}
