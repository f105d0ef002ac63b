use proxima_backend::ai_interaction::tools::{ProximaTool, ProximaToolData};
use proxima_backend::database::configuration::{ChatConfiguration, ChatSetting, RepeatPosition};
use proxima_backend::database::context::{ContextData, ContextPart, ContextPosition, WholeContext};

fn text(s: &str) -> ContextData {
    ContextData::Text(s.to_string())
}

fn part(s: &str, position: ContextPosition) -> ContextPart {
    ContextPart::new(vec![text(s)], position)
}

#[test]
fn part_keeps_data_and_position() {
    let p = ContextPart::new(vec![text("a"), ContextData::Image(3)], ContextPosition::User);
    assert_eq!(p.get_data(), &vec![text("a"), ContextData::Image(3)]);
    assert_eq!(*p.get_position(), ContextPosition::User);
    assert!(p.is_user());
    assert!(p.in_visible_position());
    let s = part("x", ContextPosition::System);
    assert!(!s.is_user());
    assert!(!s.in_visible_position());
    assert!(part("x", ContextPosition::Tool).in_visible_position());
}

#[test]
fn add_and_merge_append_in_order() {
    let mut p = part("a", ContextPosition::AI);
    p.add_data(text("b"));
    p.merge_data_with(ContextPart::new(vec![text("c"), text("d")], ContextPosition::User));
    assert_eq!(p.get_data(), &vec![text("a"), text("b"), text("c"), text("d")]);
    assert_eq!(*p.get_position(), ContextPosition::AI);
    p.get_data_mut().remove(0);
    assert_eq!(p.get_data().len(), 3);
}

#[test]
fn user_prompt_is_wrapped_in_markers() {
    let p = ContextPart::new_user_prompt_with_tools(vec![text("hi")]);
    assert_eq!(
        p.get_data(),
        &vec![text("<user_prompt>\n"), text("hi"), text("</user_prompt>\n")]
    );
    assert!(p.is_user());
}

#[test]
fn data_to_text_gives_alt_text_for_images() {
    let p = ContextPart::new(vec![text("a"), ContextData::Image(1)], ContextPosition::User);
    assert_eq!(
        p.data_to_text(),
        vec![
            "a".to_string(),
            "Alt text : This is an image. Not much more I can say since alt text is not implemented yet".to_string()
        ]
    );
    assert_eq!(p.joined_text(), "a");
}

#[test]
fn concatenate_text_joins_runs() {
    let mut p = ContextPart::new(
        vec![text("a"), text("b"), ContextData::Image(1), text("c"), text("d")],
        ContextPosition::AI,
    );
    p.concatenate_text();
    assert_eq!(p.get_data(), &vec![text("ab"), text("cd")]);
    let mut q = ContextPart::new(vec![ContextData::Image(1), ContextData::Image(2)], ContextPosition::AI);
    q.concatenate_text();
    assert_eq!(q.get_data(), &vec![text(""), text("")]);
    let mut e = ContextPart::new(vec![], ContextPosition::AI);
    e.concatenate_text();
    assert_eq!(e.get_data().len(), 0);
}

#[test]
fn get_text_returns_the_text() {
    assert_eq!(text("abc").get_text(), "abc");
}

#[test]
fn whole_context_selects_by_position() {
    let ctx = WholeContext::new(vec![
        part("rules", ContextPosition::System),
        part("u", ContextPosition::User),
        part("more rules", ContextPosition::System),
        part("a", ContextPosition::AI),
    ]);
    assert_eq!(ctx.len(), 4);
    assert_eq!(
        ctx.get_whole_system_prompt().get_parts(),
        &vec![part("rules", ContextPosition::System), part("more rules", ContextPosition::System)]
    );
    assert_eq!(
        ctx.get_everything_but_system_prompt().get_parts(),
        &vec![part("u", ContextPosition::User), part("a", ContextPosition::AI)]
    );
    let single = ctx.concatenate_into_single_part();
    assert_eq!(*single.get_position(), ContextPosition::Total);
    assert_eq!(single.joined_text(), "rulesumore rulesa");
}

#[test]
fn merge_and_add_part_append() {
    let mut a = WholeContext::new(vec![part("1", ContextPosition::User)]);
    a.add_part(part("2", ContextPosition::AI));
    let b = WholeContext::new(vec![part("3", ContextPosition::User)]);
    let mut merged = a.merge_with(b);
    assert_eq!(merged.len(), 3);
    assert_eq!(merged.get_parts()[2], part("3", ContextPosition::User));
    merged.get_parts_mut().pop();
    assert_eq!(merged.len(), 2);
}

#[test]
fn per_turn_settings_place_repeated_prompts() {
    let config = ChatConfiguration::new(
        "c".to_string(),
        vec![
            ChatSetting::SystemPrompt(part("sys", ContextPosition::System)),
            ChatSetting::RepeatedPrePrompt(part("before", ContextPosition::System), RepeatPosition::BeforeLatest),
            ChatSetting::RepeatedPrePrompt(part("after", ContextPosition::System), RepeatPosition::AfterLatest),
            ChatSetting::Tool(ProximaTool::LocalMemory, None),
        ],
    );
    let ctx = WholeContext::new_with_all_settings(vec![part("hello", ContextPosition::User)], &config);
    let texts: Vec<String> = ctx.get_parts().iter().map(|p| p.joined_text()).collect();
    assert_eq!(texts.len(), 5);
    assert!(texts[0].starts_with("sys<ToolUse>"));
    assert!(texts[0].ends_with("\n</ToolUse>"));
    assert!(texts[0].contains("Name: Local Memory"));
    assert_eq!(texts[1], "before");
    assert_eq!(texts[2], "hello");
    assert_eq!(texts[3], "after");
    assert_eq!(texts[4], "<LocalMemory> local memory data : {}<LocalMemory>");
    assert_eq!(*ctx.get_parts()[4].get_position(), ContextPosition::Tool);
}

#[test]
fn repeated_prompt_before_latest_on_empty_context() {
    let config = ChatConfiguration::new(
        "c".to_string(),
        vec![ChatSetting::RepeatedPrePrompt(part("p", ContextPosition::System), RepeatPosition::BeforeLatest)],
    );
    let mut ctx = WholeContext::new(vec![]);
    ctx.add_per_turn_settings(&config);
    assert_eq!(ctx.get_parts(), &vec![part("p", ContextPosition::System)]);
}

#[test]
fn configuration_reads_its_settings() {
    let config = ChatConfiguration::new(
        "c".to_string(),
        vec![
            ChatSetting::MaxContextLength(100),
            ChatSetting::Temperature(35),
            ChatSetting::Temperature(90),
            ChatSetting::ResponseTokenLimit(7),
        ],
    );
    assert_eq!(config.get_temp(), 35);
    assert_eq!(config.get_max_context(), 100);
    assert_eq!(config.get_max_response(), 7);
    assert!(config.get_tools().is_none());
    assert!(config.is_well_formed());
    assert!(config.access_modes.contains(&0));
    let plain = ChatConfiguration::new("d".to_string(), vec![]);
    assert_eq!(plain.get_temp(), 70);
    assert_eq!(plain.get_max_context(), 16184);
    assert_eq!(plain.get_max_response(), 2048);
    assert_eq!(plain.get_full_system_prompt().get_data().len(), 0);
}

#[test]
fn configuration_derives_tools_from_settings() {
    let memory = ProximaToolData::LocalMemory(vec![("k".to_string(), "v".to_string())]);
    let mut config = ChatConfiguration::new(
        "c".to_string(),
        vec![
            ChatSetting::Tool(ProximaTool::Calculator, None),
            ChatSetting::Tool(ProximaTool::LocalMemory, Some(memory.clone())),
        ],
    );
    let tools = config.get_tools().as_ref().unwrap();
    assert_eq!(tools.get_used_tools(), &vec![ProximaTool::Calculator, ProximaTool::LocalMemory]);
    assert_eq!(tools.get_data(ProximaTool::LocalMemory), Some(&memory));
    assert_eq!(tools.get_data(ProximaTool::Calculator), None);
    assert!(config.is_well_formed());
    config.set_tools(None);
    assert!(!config.is_well_formed());
}

#[test]
fn settings_are_shown_under_their_titles() {
    let part = ContextPart::new(vec![], ContextPosition::System);
    assert_eq!(ChatSetting::Tool(ProximaTool::LocalMemory, None).get_title(), "Tool : Local memory");
    assert_eq!(ChatSetting::Tool(ProximaTool::Calculator, None).get_title(), "Tool : Calculator");
    assert_eq!(ChatSetting::AccessMode(3).get_title(), "Access mode");
    assert_eq!(ChatSetting::MaxContextLength(8192).get_title(), "Max context : 8192");
    assert_eq!(ChatSetting::ResponseTokenLimit(0).get_title(), "Response limit : 0");
    assert_eq!(ChatSetting::PrePrompt(part.clone()).get_title(), "Pre-prompt : initial");
    assert_eq!(
        ChatSetting::RepeatedPrePrompt(part.clone(), RepeatPosition::AfterLatest).get_title(),
        "repeated pre-prompt"
    );
    assert_eq!(ChatSetting::SystemPrompt(part).get_title(), "System prompt");
    assert_eq!(ChatSetting::Temperature(70).get_title(), "Temperature : 0.7");
    assert_eq!(ChatSetting::Temperature(0).get_title(), "Temperature : 0");
    assert_eq!(ChatSetting::Temperature(5).get_title(), "Temperature : 0.05");
    assert_eq!(ChatSetting::Temperature(100).get_title(), "Temperature : 1");
    assert_eq!(ChatSetting::Temperature(125).get_title(), "Temperature : 1.25");
    assert_eq!(ChatSetting::Temperature(2000).get_title(), "Temperature : 20");
}

#[test]
fn temperatures_are_shown_as_the_numbers_they_are() {
    for hundredths in 0..=2000u64 {
        assert_eq!(
            ChatSetting::Temperature(hundredths).get_title(),
            format!("Temperature : {}", hundredths as f64 / 100.0)
        );
    }
}
