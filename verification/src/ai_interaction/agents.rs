//! Agents: dialogues of their own, which a tool starts and continues, and
//! the chats that keep them.

use crate::ai_interaction::tools::{derived_tools, ProximaTool};
use crate::database::chats::{awaits_response, Chat, ChatView};
use crate::database::configuration::{
    full_system_prompt, setting_views, ChatConfiguration, ChatConfigurationView, ChatSetting,
    ChatSettingView,
};
use crate::database::context::{
    data_views, with_per_turn_settings, ContextData, ContextDataView, ContextPart,
    ContextPartView, ContextPosition, WholeContext,
};
use crate::database::timestamp::Timestamp;
use std::collections::HashSet;
use vstd::prelude::*;

verus! {

broadcast use vstd::std_specs::hash::group_hash_axioms;

/// The settings of an agent that may use `tools`: one for each tool, in
/// order, each tool with its empty data.
pub open spec fn agent_settings(tools: Seq<ProximaTool>) -> Seq<ChatSettingView> {
    tools.map_values(|t: ProximaTool| ChatSettingView::Tool(t, None))
}

/// The configuration of an agent that may use `tools`, but for the times
/// it holds.
pub open spec fn agent_configuration_of(tools: Seq<ProximaTool>, made: ChatConfigurationView)
    -> ChatConfigurationView {
    ChatConfigurationView {
        id: 0,
        created_on: made.created_on,
        last_updated: made.last_updated,
        raw_settings: agent_settings(tools),
        tools: derived_tools(agent_settings(tools)),
        tags: Set::empty(),
        access_modes: Set::empty().insert(0),
        name: "agent"@,
    }
}

/// What the user says to an agent: `prompt`, marked as the turn of the user.
pub open spec fn user_turn(prompt: Seq<char>) -> ContextPartView {
    ContextPartView {
        data: seq![
            ContextDataView::Text("<user_prompt>\n"@),
            ContextDataView::Text(prompt),
            ContextDataView::Text("</user_prompt>\n"@),
        ],
        position: ContextPosition::User,
    }
}

/// A chat after the fragments `parts` were added to it, the last of them
/// at the time `at`: a reply is awaited where the last fragment comes
/// neither from the user nor from the system. Without fragments the chat
/// is as it was.
pub open spec fn chat_with_parts(chat: ChatView, parts: Seq<ContextPartView>, at: Timestamp)
    -> ChatView {
    if parts.len() == 0 {
        chat
    } else {
        ChatView {
            context: chat.context + parts,
            waiting_on_response: awaits_response(parts),
            latest_message: at,
            ..chat
        }
    }
}

/// What of the dialogue `whole` lies beyond the first `known` fragments.
pub open spec fn beyond(whole: Seq<ContextPartView>, known: nat) -> Seq<ContextPartView> {
    if known <= whole.len() {
        whole.skip(known as int)
    } else {
        Seq::empty()
    }
}

/// The configuration of an agent that may use `tools`.
pub fn agent_configuration(tools: &Vec<ProximaTool>) -> (r: ChatConfiguration)
    ensures
        r@ == agent_configuration_of(tools@, r@),
        r@.wf(),
{
    let mut settings: Vec<ChatSetting> = Vec::new();
    let mut i: usize = 0;
    while i < tools.len()
        invariant
            i <= tools.len(),
            settings.len() == i,
            forall|j: int|
                0 <= j < i ==> (#[trigger] settings@[j])@ == ChatSettingView::Tool(tools@[j], None),
        decreases tools.len() - i,
    {
        settings.push(ChatSetting::Tool(tools[i], None));
        i += 1;
    }
    proof {
        assert(setting_views(settings@) =~= agent_settings(tools@));
    }
    ChatConfiguration::new("agent".to_string(), settings)
}

/// The fragment that holds `prompt` as the turn of the user.
pub fn user_turn_of(prompt: String) -> (r: ContextPart)
    ensures
        r@ == user_turn(prompt@),
{
    let mut data: Vec<ContextData> = Vec::new();
    data.push(ContextData::Text(prompt));
    let r = ContextPart::new_user_prompt_with_tools(data);
    proof {
        assert(data_views(data@) =~= seq![ContextDataView::Text(prompt@)]);
        assert(r@.data =~= user_turn(prompt@).data);
    }
    r
}

/// The dialogue that an agent with `settings` starts from: the system
/// prompt of the settings, then `prompt` as the only turn of the user, then
/// what the settings add in each turn.
pub fn agent_opening(prompt: String, settings: &ChatConfiguration) -> (r: WholeContext)
    ensures
        r@ == with_per_turn_settings(
            seq![full_system_prompt(settings@), user_turn(prompt@)],
            settings@,
        ),
{
    let mut parts: Vec<ContextPart> = Vec::new();
    let turn = user_turn_of(prompt);
    parts.push(turn);
    proof {
        assert(seq![full_system_prompt(settings@)] + crate::database::context::part_views(parts@)
            =~= seq![full_system_prompt(settings@), user_turn(prompt@)]);
    }
    WholeContext::new_with_all_settings(parts, settings)
}

/// The chat that keeps the dialogue `context` of an agent with `settings`:
/// a new chat without title, session, tags or stored configuration, in the
/// global access mode, with the settings as the ones it last used.
pub fn agent_chat(context: WholeContext, settings: ChatConfiguration) -> (r: Chat)
    ensures
        r@ == (ChatView {
            id: 0,
            context: context@,
            chat_title: None,
            session_id: None,
            origin_device: 0,
            start_date: r@.start_date,
            waiting_on_response: awaits_response(context@),
            latest_message: r@.latest_message,
            tags: Set::empty(),
            access_modes: Set::empty().insert(0),
            config: None,
            latest_used_config: Some(settings@),
        }),
        r@.wf(),
{
    let count = context.len();
    let waiting_on_response = if count > 0 {
        let parts = context.get_parts();
        proof {
            assert(context@.last() == parts@[count - 1]@);
        }
        match parts[count - 1].get_position() {
            ContextPosition::User => false,
            ContextPosition::System => false,
            _ => true,
        }
    } else {
        false
    };
    let mut access_modes: HashSet<usize> = HashSet::new();
    access_modes.insert(0);
    let now = Timestamp::now();
    Chat {
        id: 0,
        context,
        chat_title: None,
        session_id: None,
        origin_device: 0,
        start_date: now,
        waiting_on_response,
        latest_message: now,
        tags: HashSet::new(),
        access_modes,
        config: None,
        latest_used_config: Some(settings),
    }
}

/// What a further message `prompt` to the agent kept in `chat` is answered
/// from: the settings that the chat last used, or those of an agent without
/// tools where it used none, and the dialogue of the chat with the prompt
/// as a further turn of the user.
pub fn agent_follow_up(chat: &Chat, prompt: String) -> (r: (ChatConfiguration, WholeContext))
    ensures
        r.0@ == match chat@.latest_used_config {
            Some(settings) => settings,
            None => agent_configuration_of(Seq::empty(), r.0@),
        },
        r.1@ == chat@.context.push(user_turn(prompt@)),
{
    let settings = match &chat.latest_used_config {
        Some(settings) => settings.clone(),
        None => {
            let none: Vec<ProximaTool> = Vec::new();
            proof {
                assert(none@ =~= Seq::<ProximaTool>::empty());
            }
            agent_configuration(&none)
        },
    };
    let mut context = chat.context.clone();
    context.add_part(user_turn_of(prompt));
    (settings, context)
}

/// The chat of an agent once its dialogue has grown to `whole`: what
/// `whole` holds beyond the dialogue of the chat is added to it, fragment
/// by fragment.
pub fn agent_chat_continued(chat: Chat, whole: &WholeContext) -> (r: Chat)
    ensures
        r@ == chat_with_parts(chat@, beyond(whole@, chat@.context.len()), r@.latest_message),
        chat@.wf() ==> r@.wf(),
{
    let mut chat = chat;
    let ghost start = chat@;
    let known = chat.context.len();
    let parts = whole.get_parts();
    if known >= parts.len() {
        proof {
            assert(beyond(whole@, start.context.len()) =~= Seq::<ContextPartView>::empty());
        }
        return chat;
    }
    let mut i: usize = known;
    while i < parts.len()
        invariant
            known <= i <= parts.len(),
            known == start.context.len(),
            known < parts.len(),
            crate::database::context::part_views(parts@) == whole@,
            i > known ==> chat@ == chat_with_parts(
                start,
                whole@.subrange(known as int, i as int),
                chat@.latest_message,
            ),
            i == known ==> chat@ == start,
            i > known ==> chat@.wf(),
        decreases parts.len() - i,
    {
        let ghost before = chat@;
        let part = parts[i].clone();
        proof {
            assert(part@ == whole@[i as int]);
        }
        chat.add_to_context(part);
        proof {
            let grown = whole@.subrange(known as int, i + 1);
            assert(grown =~= whole@.subrange(known as int, i as int).push(whole@[i as int]));
            assert(grown.last() == whole@[i as int]);
            assert(chat@.context =~= start.context + grown);
        }
        i += 1;
    }
    proof {
        assert(whole@.subrange(known as int, parts.len() as int) =~= beyond(
            whole@,
            start.context.len(),
        ));
    }
    chat
}

} // verus!
