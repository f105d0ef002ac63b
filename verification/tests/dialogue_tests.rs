use proxima_backend::ai_interaction::backend_api::{
    context_to_messages, part_to_message, BackendError, ChatMessage, MessageRole,
    OpenAISessionStatus,
};
use proxima_backend::ai_interaction::dialogue::{wrap_response, DialogueStep, RequestHandler, MAX_TURNS};
use proxima_backend::ai_interaction::dispatch::{
    handle_tool_calling_response, is_valid_tool_calling_response,
    looks_like_nonstandard_final_response, CallOutcome, DispatchOutcome,
};
use proxima_backend::ai_interaction::endpoint_api::{
    send_context_part_streaming_blocking, EndpointRequestVariant, EndpointResponseVariant,
    StreamAccumulator,
};
use proxima_backend::ai_interaction::markup::{parse_markup, MarkupNode};
use proxima_backend::ai_interaction::tools::{
    AgentRegistry, ProximaTool, ProximaToolData, ToolAnswer, ToolRequest, Tools,
};
use proxima_backend::database::chats::{SessionID, SessionType};
use proxima_backend::database::configuration::{ChatConfiguration, ChatSetting};
use proxima_backend::database::context::{ContextData, ContextPart, ContextPosition, WholeContext};

fn s(x: &str) -> String {
    x.to_string()
}

fn part(text: &str, position: ContextPosition) -> ContextPart {
    ContextPart::new(vec![ContextData::Text(s(text))], position)
}

fn ai(text: &str) -> ContextPart {
    part(text, ContextPosition::AI)
}

fn start_context() -> WholeContext {
    WholeContext::new(vec![part("ok", ContextPosition::System), part("hello", ContextPosition::User)])
}

fn config_with(tools: Vec<ChatSetting>) -> ChatConfiguration {
    ChatConfiguration::new(s("c"), tools)
}

const CALL_2_PLUS_3: &str =
    "<call><tool>Calculator</tool><action>compute</action><in_data>2+3</in_data></call>";

#[test]
fn markup_is_parsed_into_a_tree() {
    let parsed = parse_markup(CALL_2_PLUS_3).unwrap();
    assert_eq!(
        parsed,
        vec![MarkupNode::Element(
            s("call"),
            vec![
                MarkupNode::Element(s("tool"), vec![MarkupNode::Text(s("Calculator"))]),
                MarkupNode::Element(s("action"), vec![MarkupNode::Text(s("compute"))]),
                MarkupNode::Element(s("in_data"), vec![MarkupNode::Text(s("2+3"))]),
            ]
        )]
    );
    let mixed = parse_markup("hi <b>x</b><!-- note -->").unwrap();
    assert_eq!(
        mixed,
        vec![
            MarkupNode::Text(s("hi ")),
            MarkupNode::Element(s("b"), vec![MarkupNode::Text(s("x"))]),
            MarkupNode::Comment(s("note")),
        ]
    );
}

#[test]
fn final_answers_are_recognised_over_the_whole_text() {
    let split = ContextPart::new(
        vec![ContextData::Text(s("<resp")), ContextData::Text(s("onse>5</response>"))],
        ContextPosition::AI,
    );
    assert!(is_valid_tool_calling_response(&split));
    assert!(!looks_like_nonstandard_final_response(&split));
    assert!(!is_valid_tool_calling_response(&ai("just 5")));
    assert!(looks_like_nonstandard_final_response(&ai("just 5")));
    assert!(looks_like_nonstandard_final_response(&ai("<response>5")));
    let both = ai("<response>5</response><call>x</call>");
    assert!(!is_valid_tool_calling_response(&both));
    assert!(!looks_like_nonstandard_final_response(&both));
    assert!(!looks_like_nonstandard_final_response(&ai(CALL_2_PLUS_3)));
}

#[test]
fn no_tool_round_trip_answers_with_the_reply() {
    let mut handler = RequestHandler::new(start_context(), None, false);
    let step = handler.respond(ai("<response>hello</response>"), &vec![]);
    assert_eq!(step, DialogueStep::Emit(EndpointResponseVariant::Block(ai("<response>hello</response>"))));
    let mut without_tools = RequestHandler::new(start_context(), Some(config_with(vec![])), false);
    assert_eq!(
        without_tools.respond(ai("anything <call>"), &vec![]),
        DialogueStep::Emit(EndpointResponseVariant::Block(ai("anything <call>")))
    );
}

#[test]
fn single_tool_call_goes_back_to_the_model_once() {
    let config = config_with(vec![ChatSetting::Tool(ProximaTool::Calculator, None)]);
    let mut handler = RequestHandler::new(start_context(), Some(config), false);
    assert_eq!(handler.respond(ai(CALL_2_PLUS_3), &vec![]), DialogueStep::Needs(ToolRequest::Evaluate(s("2+3"))));
    assert_eq!(handler.get_turn(), 0);
    assert_eq!(handler.get_context().len(), 2);
    let step = handler.respond(ai(CALL_2_PLUS_3), &vec![ToolAnswer::Value(s("5.0000"))]);
    let tool_part = ContextPart::new(
        vec![
            ContextData::Text(s("<outputs>\n")),
            ContextData::Text(s("<output><tool>Calculator</tool><action>compute</action><output_data>2+3 = 5.0000</output_data></output>")),
            ContextData::Text(s("\n</outputs>")),
        ],
        ContextPosition::Tool,
    );
    let snapshot = ContextPart::new(vec![], ContextPosition::Tool);
    let expected = WholeContext::new(vec![
        part("ok", ContextPosition::System),
        part("hello", ContextPosition::User),
        ai(CALL_2_PLUS_3),
        tool_part.clone(),
        snapshot.clone(),
    ]);
    assert_eq!(step, DialogueStep::Issue { context: expected.clone(), events: vec![] });
    assert_eq!(handler.get_turn(), 1);
    let last = handler.respond(ai("<response>5</response>"), &vec![]);
    let mut whole = expected;
    whole.add_part(ai("<response>5</response>"));
    assert_eq!(last, DialogueStep::Emit(EndpointResponseVariant::MultiTurnBlock(whole)));
}

#[test]
fn nonstandard_final_is_wrapped() {
    let config = config_with(vec![ChatSetting::Tool(ProximaTool::Calculator, None)]);
    let mut handler = RequestHandler::new(start_context(), Some(config), false);
    match handler.respond(ai("just 5"), &vec![]) {
        DialogueStep::Emit(EndpointResponseVariant::MultiTurnBlock(context)) => {
            assert_eq!(context.len(), 3);
            let last = &context.get_parts()[2];
            assert_eq!(last.joined_text(), "<response>\njust 5</response>\n");
            assert_eq!(*last.get_position(), ContextPosition::AI);
        }
        other => panic!("unexpected step {:?}", other),
    }
    assert_eq!(
        wrap_response(ai("x")).get_data(),
        &vec![ContextData::Text(s("<response>\n")), ContextData::Text(s("x")), ContextData::Text(s("</response>\n"))]
    );
}

#[test]
fn recursive_agent_runs_a_nested_dialogue() {
    let registry = AgentRegistry { agents: vec![], counter: 0, allocatable_tools: vec![ProximaTool::Calculator] };
    let config = config_with(vec![ChatSetting::Tool(ProximaTool::Agent, Some(ProximaToolData::Agent(registry)))]);
    let mut outer = RequestHandler::new(start_context(), Some(config), false);
    let call = "<call><tool>Agent</tool><action>run</action><in_data>helper\ndefault model\nCalculator\n2+2 please</in_data></call>";
    let request = match outer.respond(ai(call), &vec![]) {
        DialogueStep::Needs(request) => request,
        other => panic!("unexpected step {:?}", other),
    };
    let (tools, prompt) = match request {
        ToolRequest::StartAgent { name, model, tools, prompt } => {
            assert_eq!(name, "helper");
            assert_eq!(model, "default model");
            (tools, prompt)
        }
        other => panic!("unexpected request {:?}", other),
    };
    assert_eq!(tools, vec![ProximaTool::Calculator]);
    assert_eq!(prompt, "2+2 please");
    let inner_config = config_with(tools.into_iter().map(|t| ChatSetting::Tool(t, None)).collect());
    let inner_context = WholeContext::new(vec![ContextPart::new_user_prompt_with_tools(vec![ContextData::Text(prompt)])]);
    let mut inner = RequestHandler::new(inner_context, Some(inner_config), false);
    let inner_reply = match inner.respond(ai("<response>4</response>"), &vec![]) {
        DialogueStep::Emit(EndpointResponseVariant::MultiTurnBlock(context)) => context,
        other => panic!("unexpected step {:?}", other),
    };
    assert!(inner_reply.get_parts().last().unwrap().joined_text().contains("4"));
    let answers = vec![ToolAnswer::AgentReplied { context: inner_reply, chat_id: 0 }];
    let context = match outer.respond(ai(call), &answers) {
        DialogueStep::Issue { context, .. } => context,
        other => panic!("unexpected step {:?}", other),
    };
    let outputs = &context.get_parts()[3];
    assert_eq!(
        outputs.get_data()[1],
        ContextData::Text(s("<output><tool>Agent</tool><action>run</action><output_data>helper\n4</output_data></output>"))
    );
    assert_eq!(context.get_parts()[4].joined_text(), "<Agents> agents : [\"helper\"]<Agents>");
    match outer.respond(ai("<response>done</response>"), &vec![]) {
        DialogueStep::Emit(EndpointResponseVariant::MultiTurnBlock(whole)) => assert_eq!(whole.len(), 6),
        other => panic!("unexpected step {:?}", other),
    }
}

#[test]
fn dialogue_stops_after_the_turn_limit() {
    let config = config_with(vec![ChatSetting::Tool(ProximaTool::Calculator, None)]);
    let mut handler = RequestHandler::new(start_context(), Some(config), false);
    let answers = vec![ToolAnswer::Value(s("5.0000"))];
    let mut issues = 0;
    loop {
        match handler.respond(ai(CALL_2_PLUS_3), &answers) {
            DialogueStep::Issue { .. } => issues += 1,
            DialogueStep::Emit(EndpointResponseVariant::MultiTurnBlock(context)) => {
                assert_eq!(context.len(), 2 + 3 * MAX_TURNS + 1);
                assert_eq!(context.get_parts().last().unwrap(), &ai(CALL_2_PLUS_3));
                break;
            }
            other => panic!("unexpected step {:?}", other),
        }
        assert!(issues <= MAX_TURNS);
    }
    assert_eq!(issues, MAX_TURNS);
    assert_eq!(handler.get_turn(), MAX_TURNS);
}

#[test]
fn reply_without_call_ends_with_a_response() {
    let config = config_with(vec![ChatSetting::Tool(ProximaTool::Calculator, None)]);
    for reply in ["plain", "<response>half", "<response>x</response>", "call> <cal", "</response><response>"] {
        let mut handler = RequestHandler::new(start_context(), Some(config.clone()), false);
        match handler.respond(ai(reply), &vec![]) {
            DialogueStep::Emit(EndpointResponseVariant::MultiTurnBlock(context)) => {
                let text = context.get_parts().last().unwrap().joined_text();
                assert!(text.contains("<response>") && text.contains("</response>"));
                assert!(!text.contains("<call>"));
            }
            other => panic!("unexpected step {:?}", other),
        }
    }
}

#[test]
fn streaming_turn_passes_tool_parts_on() {
    let memory = ChatSetting::Tool(ProximaTool::LocalMemory, None);
    let mut handler = RequestHandler::new(start_context(), Some(config_with(vec![memory])), true);
    let call = "<call><tool>Local Memory</tool><action>add</action><in_data>k\nv</in_data></call>";
    match handler.respond(ai(call), &vec![]) {
        DialogueStep::Issue { context, events } => {
            assert_eq!(context.len(), 5);
            assert_eq!(
                context.get_parts()[4].joined_text(),
                "<LocalMemory> local memory data : {\"k\": \"v\"}<LocalMemory>"
            );
            assert_eq!(events.len(), 4);
            assert_eq!(
                events[0],
                EndpointResponseVariant::StartStream(ContextData::Text(s("<outputs>\n")), ContextPosition::Tool)
            );
            assert!(matches!(events[1], EndpointResponseVariant::ContinueStream(_, ContextPosition::Tool)));
            assert!(matches!(events[2], EndpointResponseVariant::ContinueStream(_, ContextPosition::Tool)));
            assert!(matches!(events[3], EndpointResponseVariant::StartStream(_, ContextPosition::Tool)));
        }
        other => panic!("unexpected step {:?}", other),
    }
}

#[test]
fn dispatcher_reports_unreadable_calls_and_goes_on() {
    let tools = Tools::from_parts(vec![ProximaTool::LocalMemory], vec![(ProximaTool::LocalMemory, ProximaToolData::LocalMemory(vec![]))]);
    let reply = ai(concat_calls());
    match handle_tool_calling_response(&reply, &tools, &vec![]) {
        DispatchOutcome::Done(part, after) => {
            let texts: Vec<String> = part.data_to_text();
            assert_eq!(texts.len(), 7);
            assert_eq!(texts[0], "<outputs>\n");
            assert_eq!(texts[1], "<error><tool>Couldn't be parsed</tool><action>Couldn't be parsed</action><error_data>Parsing(NotAnElement)</error_data></error>");
            assert_eq!(texts[2], "<error><tool>Tool name couldn't be parsed</tool><action>Couldn't be parsed</action><error_data>Parsing(NotAnElement)</error_data></error>");
            assert_eq!(texts[3], "<error><tool>Calculator</tool><action>Invalid action</action><error_data>Parsing(NotAnElement)</error_data></error>");
            assert_eq!(texts[4], "<error><tool>Couldn't be parsed</tool><action>Couldn't be parsed</action><error_data>Parsing(BadElementName { expected: \"tool\", found: \"action\" })</error_data></error>");
            assert_eq!(texts[5], "<output><tool>Local Memory</tool><action>add</action><output_data></output_data></output>");
            assert_eq!(texts[6], "\n</outputs>");
            assert_eq!(
                after.get_data(ProximaTool::LocalMemory),
                Some(&ProximaToolData::LocalMemory(vec![(s("a"), s("b"))]))
            );
        }
        other => panic!("unexpected outcome {:?}", other),
    }
}

fn concat_calls() -> &'static str {
    "text before\
     <call><tool>Calculator</tool></call>\
     <call><tool>Abacus</tool><action>compute</action><in_data>1</in_data></call>\
     <call><tool>Calculator</tool><action>dance</action><in_data>1</in_data></call>\
     <call><action>compute</action><tool>Calculator</tool><in_data>1</in_data></call>\
     <other>ignored</other>\
     <call><tool>Local Memory</tool><action>add</action><in_data>a\nb</in_data></call>"
}

#[test]
fn calculator_calls_leave_tool_data_unchanged() {
    let memory = ProximaToolData::LocalMemory(vec![(s("k"), s("v"))]);
    let tools = Tools::from_parts(
        vec![ProximaTool::LocalMemory, ProximaTool::Calculator],
        vec![(ProximaTool::LocalMemory, memory.clone())],
    );
    let children = match parse_markup(CALL_2_PLUS_3).unwrap().remove(0) {
        MarkupNode::Element(_, children) => children,
        other => panic!("unexpected node {:?}", other),
    };
    match tools.call(&children, &vec![ToolAnswer::Value(s("5.0000"))], 0) {
        CallOutcome::Finished(Ok((_, after)), used) => {
            assert_eq!(used, 1);
            assert_eq!(after, tools);
        }
        other => panic!("unexpected outcome {:?}", other),
    }
    let check = "<call><tool>Calculator</tool><action>check</action><in_data>1 < 2</in_data></call>";
    let reply = ai(check);
    match handle_tool_calling_response(&reply, &tools, &vec![ToolAnswer::Compared(proxima_backend::ai_interaction::tools::Comparison::Less)]) {
        DispatchOutcome::Done(_, after) => assert_eq!(after, tools),
        other => panic!("unexpected outcome {:?}", other),
    }
}

#[test]
fn unparseable_reply_holds_no_call() {
    let tools = Tools::from_parts(vec![ProximaTool::Calculator], vec![]);
    let text = "<!DOCTYPE html><html></html><html><call></call></html>";
    assert!(parse_markup(text).is_none());
    match handle_tool_calling_response(&ai(text), &tools, &vec![]) {
        DispatchOutcome::Done(part, after) => {
            assert_eq!(part.data_to_text(), vec![s("<outputs>\n"), s("\n</outputs>")]);
            assert_eq!(after, tools);
        }
        other => panic!("unexpected outcome {:?}", other),
    }
}

#[test]
fn tool_without_data_gives_an_error() {
    let tools = Tools::from_parts(vec![ProximaTool::Calculator], vec![]);
    let call = "<call><tool>Local Memory</tool><action>add</action><in_data>a\nb</in_data></call>";
    match handle_tool_calling_response(&ai(call), &tools, &vec![]) {
        DispatchOutcome::Done(part, after) => {
            assert_eq!(
                part.data_to_text()[1],
                "<error><tool>Local Memory</tool><action>Tool has no data</action><error_data>Parsing(NotAnElement)</error_data></error>"
            );
            assert_eq!(after, tools);
        }
        other => panic!("unexpected outcome {:?}", other),
    }
}

#[test]
fn stream_events_start_once() {
    let p = ContextPart::new(
        vec![ContextData::Text(s("a")), ContextData::Text(s("b")), ContextData::Image(1)],
        ContextPosition::Tool,
    );
    assert_eq!(
        send_context_part_streaming_blocking(&p),
        vec![
            EndpointResponseVariant::StartStream(ContextData::Text(s("a")), ContextPosition::Tool),
            EndpointResponseVariant::ContinueStream(ContextData::Text(s("b")), ContextPosition::Tool),
            EndpointResponseVariant::ContinueStream(ContextData::Image(1), ContextPosition::Tool),
        ]
    );
    assert_eq!(send_context_part_streaming_blocking(&ContextPart::new(vec![], ContextPosition::AI)), vec![]);
    let mut acc = StreamAccumulator::new(ContextPosition::AI);
    assert_eq!(
        acc.push(ContextData::Text(s("x"))),
        EndpointResponseVariant::StartStream(ContextData::Text(s("x")), ContextPosition::AI)
    );
    assert_eq!(
        acc.push(ContextData::Text(s("y"))),
        EndpointResponseVariant::ContinueStream(ContextData::Text(s("y")), ContextPosition::AI)
    );
    assert_eq!(acc.finish().joined_text(), "xy");
}

#[test]
fn request_variant_says_whether_it_streams() {
    let request = EndpointRequestVariant::RespondToFullPrompt {
        whole_context: start_context(),
        streaming: true,
        session_type: SessionType::Chat,
        chat_settings: None,
    };
    assert!(request.is_stream());
    assert!(!EndpointRequestVariant::Continue.is_stream());
}

#[test]
fn contexts_become_messages_by_role() {
    let ctx = WholeContext::new(vec![
        part("s", ContextPosition::System),
        part("u", ContextPosition::User),
        ContextPart::new(vec![ContextData::Text(s("a")), ContextData::Text(s("b"))], ContextPosition::AI),
        part("t", ContextPosition::Tool),
        part("all", ContextPosition::Total),
    ]);
    assert_eq!(
        context_to_messages(&ctx),
        Some(vec![
            ChatMessage { role: MessageRole::System, content: s("s") },
            ChatMessage { role: MessageRole::User, content: s("u") },
            ChatMessage { role: MessageRole::Assistant, content: s("ab") },
            ChatMessage { role: MessageRole::Tool, content: s("t") },
            ChatMessage { role: MessageRole::Tool, content: s("all") },
        ])
    );
    let image = ContextPart::new(vec![ContextData::Text(s("a")), ContextData::Image(1)], ContextPosition::User);
    assert_eq!(part_to_message(&image), None);
    assert_eq!(context_to_messages(&WholeContext::new(vec![part("s", ContextPosition::System), image])), None);
}

#[test]
fn sessions_take_prompts_only_in_standby() {
    let id = SessionID { id: 1, session_type: SessionType::Chat };
    for status in [OpenAISessionStatus::Beginning, OpenAISessionStatus::Waiting, OpenAISessionStatus::Over] {
        let mut st = status;
        assert!(!st.ready());
        assert_eq!(st.add_prompt(id), Err(BackendError::SessionBusy(id)));
        assert_eq!(st, status);
    }
    let mut st = OpenAISessionStatus::Standby;
    assert!(st.ready());
    assert_eq!(st.add_prompt(id), Ok(()));
    assert_eq!(st, OpenAISessionStatus::Waiting);
    st.reply_arrived();
    assert_eq!(st, OpenAISessionStatus::Standby);
    let mut over = OpenAISessionStatus::Over;
    over.reply_arrived();
    assert_eq!(over, OpenAISessionStatus::Over);
}

#[test]
fn a_handler_knows_how_it_answers() {
    assert!(!RequestHandler::new(start_context(), None, false).is_streaming());
    assert!(RequestHandler::new(start_context(), None, true).is_streaming());
}

#[test]
fn a_handler_tells_whether_its_tool_data_is_in_order() {
    assert!(RequestHandler::new(start_context(), None, false).tools_in_order());
    let plain = config_with(vec![ChatSetting::Tool(ProximaTool::LocalMemory, None)]);
    assert!(RequestHandler::new(start_context(), Some(plain), false).tools_in_order());
    let twice = ProximaToolData::LocalMemory(vec![(s("k"), s("1")), (s("k"), s("2"))]);
    let bad = config_with(vec![ChatSetting::Tool(ProximaTool::LocalMemory, Some(twice))]);
    assert!(!RequestHandler::new(start_context(), Some(bad), false).tools_in_order());
}

#[test]
fn memory_calls_keep_the_memory_a_map() {
    let start = ProximaToolData::LocalMemory(vec![(s("a"), s("1")), (s("b"), s("2"))]);
    let config = config_with(vec![ChatSetting::Tool(ProximaTool::LocalMemory, Some(start))]);
    let mut handler = RequestHandler::new(start_context(), Some(config), false);
    assert!(handler.tools_in_order());
    let reply = "<call><tool>Local Memory</tool><action>add</action><in_data>a\nnew</in_data></call>\
<call><tool>Local Memory</tool><action>add</action><in_data>c\n3</in_data></call>\
<call><tool>Local Memory</tool><action>remove</action><in_data>b</in_data></call>";
    match handler.respond(ai(reply), &vec![]) {
        DialogueStep::Issue { .. } => {}
        other => panic!("unexpected step {:?}", other),
    }
    assert!(handler.tools_in_order());
}
