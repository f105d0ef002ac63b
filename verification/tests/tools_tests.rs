use proxima_backend::ai_interaction::tools::{
    generate_call_output, AgentRecord, AgentRegistry, AgentStatus, Comparison, ProximaTool,
    ProximaToolCallError, ProximaToolData, SearchResult, ToolAnswer, ToolOutcome, ToolParsingError,
    ToolRequest, Tools,
};
use proxima_backend::database::context::{ContextData, ContextPart, ContextPosition, WholeContext};

fn s(x: &str) -> String {
    x.to_string()
}

fn output(tool: &str, action: &str, data: &str) -> ContextData {
    ContextData::Text(format!(
        "<output><tool>{tool}</tool><action>{action}</action><output_data>{data}</output_data></output>"
    ))
}

#[test]
fn tool_names_are_resolved_after_trimming() {
    assert_eq!(ProximaTool::try_from_string(s(" Local Memory ")), Some(ProximaTool::LocalMemory));
    assert_eq!(ProximaTool::try_from_string(s("Calculator")), Some(ProximaTool::Calculator));
    assert_eq!(ProximaTool::try_from_string(s("Web\n")), Some(ProximaTool::Web));
    assert_eq!(ProximaTool::try_from_string(s("Python")), Some(ProximaTool::Python));
    assert_eq!(ProximaTool::try_from_string(s("Agent")), Some(ProximaTool::Agent));
    assert_eq!(ProximaTool::try_from_string(s("calculator")), None);
    assert_eq!(ProximaTool::try_from_string(s("")), None);
}

#[test]
fn actions_are_checked_per_tool() {
    let cases = [
        (ProximaTool::LocalMemory, vec!["add", "update", "remove"]),
        (ProximaTool::Calculator, vec!["compute", "check"]),
        (ProximaTool::Web, vec!["search", "open"]),
        (ProximaTool::Python, vec!["run", "eval"]),
        (ProximaTool::Agent, vec!["run", "respond"]),
    ];
    let all = ["add", "update", "remove", "compute", "check", "search", "open", "run", "eval", "respond", "", "x"];
    for (tool, valid) in cases.iter() {
        for action in all.iter() {
            assert_eq!(tool.is_valid_action(&s(action)), valid.contains(action), "{:?} {}", tool, action);
            assert_eq!(tool.is_valid_action(&format!("  {}\n", action)), valid.contains(action));
        }
    }
}

#[test]
fn tools_say_whether_they_keep_data() {
    assert!(ProximaTool::LocalMemory.must_insert_data());
    assert!(ProximaTool::Agent.must_insert_data());
    assert!(!ProximaTool::Calculator.must_insert_data());
    assert!(!ProximaTool::Web.must_insert_data());
    assert!(!ProximaTool::Python.must_insert_data());
    assert_eq!(ProximaTool::LocalMemory.get_empty_data(), Some(ProximaToolData::LocalMemory(vec![])));
    assert_eq!(ProximaTool::Calculator.get_empty_data(), None);
    assert_eq!(ProximaTool::LocalMemory.get_name(), "Local memory");
    assert_eq!(ProximaTool::Calculator.get_name(), "Calculator");
    assert!(ProximaTool::Web.get_description_string().contains("Name: Web"));
}

#[test]
fn error_text_matches_debug_formatting() {
    let errors = vec![
        ProximaToolCallError::Parsing(ToolParsingError::NotAnElement),
        ProximaToolCallError::Parsing(ToolParsingError::BadElementName { expected: s("tool"), found: s("to\"ol") }),
        ProximaToolCallError::Parsing(ToolParsingError::BadNumberOfArguments {
            expected: 2,
            found: 13,
            remarks: s("line\nbreak"),
        }),
        ProximaToolCallError::Parsing(ToolParsingError::IncorrectExpression { expression: s("1+"), issue: s("é\\") }),
        ProximaToolCallError::WebError(s("no network")),
        ProximaToolCallError::Network(s("")),
    ];
    for error in errors {
        assert_eq!(error.to_text(), format!("{:?}", error));
    }
}

#[test]
fn error_output_has_the_documented_shape() {
    let error = ProximaToolCallError::Parsing(ToolParsingError::NotAnElement);
    let data = error.generate_error_output_just_context_data(s("Web"), s("open"));
    assert_eq!(
        data,
        ContextData::Text(s("<error><tool>Web</tool><action>open</action><error_data>Parsing(NotAnElement)</error_data></error>"))
    );
    let part = error.generate_error_output(s("Web"), s("open"));
    assert_eq!(part, ContextPart::new(vec![data], ContextPosition::Tool));
    assert_eq!(generate_call_output(s("T"), s("a"), s("d")), output("T", "a", "d"));
}

#[test]
fn local_memory_add_update_remove() {
    let tool = ProximaTool::LocalMemory;
    let empty = ProximaToolData::LocalMemory(vec![]);
    let added = tool.respond_to(s("add"), s("name\nAda\nLovelace"), Some(&empty), &vec![], 0);
    let after_add = ProximaToolData::LocalMemory(vec![(s("name"), s("Ada\nLovelace"))]);
    assert_eq!(
        added,
        ToolOutcome::Finished(Ok((output("Local Memory", "add", ""), Some(after_add.clone()))), 0)
    );
    let second = tool.respond_to(s("add"), s("age\n36"), Some(&after_add), &vec![], 0);
    let two = ProximaToolData::LocalMemory(vec![(s("name"), s("Ada\nLovelace")), (s("age"), s("36"))]);
    assert_eq!(second, ToolOutcome::Finished(Ok((output("Local Memory", "add", ""), Some(two.clone()))), 0));
    let updated = tool.respond_to(s(" update "), s("  name \n Grace "), Some(&two), &vec![], 0);
    let after_update = ProximaToolData::LocalMemory(vec![(s("name"), s("Grace")), (s("age"), s("36"))]);
    assert_eq!(
        updated,
        ToolOutcome::Finished(Ok((output("Local Memory", "update", ""), Some(after_update.clone()))), 0)
    );
    let removed = tool.respond_to(s("remove"), s("name"), Some(&after_update), &vec![], 0);
    assert_eq!(
        removed,
        ToolOutcome::Finished(
            Ok((output("Local Memory", "remove", ""), Some(ProximaToolData::LocalMemory(vec![(s("age"), s("36"))])))),
            0
        )
    );
    let missing = tool.respond_to(s("remove"), s("nobody"), Some(&after_update), &vec![], 0);
    assert_eq!(
        missing,
        ToolOutcome::Finished(Ok((output("Local Memory", "remove", ""), Some(after_update.clone()))), 0)
    );
    assert_eq!(after_update.get_local_mem_data(), vec![(s("name"), s("Grace")), (s("age"), s("36"))]);
}

#[test]
fn local_memory_rejects_wrong_line_counts() {
    let tool = ProximaTool::LocalMemory;
    let empty = ProximaToolData::LocalMemory(vec![]);
    assert_eq!(
        tool.respond_to(s("add"), s("only key"), Some(&empty), &vec![], 0),
        ToolOutcome::Finished(
            Err(ProximaToolCallError::Parsing(ToolParsingError::BadNumberOfArguments {
                expected: 2,
                found: 1,
                remarks: s("The first input line contains the key, all the rest contain the value assigned to that key"),
            })),
            0
        )
    );
    assert_eq!(
        tool.respond_to(s("remove"), s("a\nb"), Some(&empty), &vec![], 0),
        ToolOutcome::Finished(
            Err(ProximaToolCallError::Parsing(ToolParsingError::BadNumberOfArguments {
                expected: 1,
                found: 2,
                remarks: s("The first input line contains the key, there are no other lines"),
            })),
            0
        )
    );
}

#[test]
fn memory_snapshot_is_written_like_a_map() {
    let data = ProximaToolData::LocalMemory(vec![(s("a"), s("1")), (s("b\"c"), s("x\ny"))]);
    assert_eq!(
        data.get_data_to_insert(),
        ContextData::Text(s("<LocalMemory> local memory data : {\"a\": \"1\", \"b\\\"c\": \"x\\ny\"}<LocalMemory>"))
    );
    let one = ProximaToolData::LocalMemory(vec![(s("a"), s("1"))]);
    let mut map = std::collections::HashMap::new();
    map.insert(s("a"), s("1"));
    assert_eq!(
        one.get_data_to_insert(),
        ContextData::Text(format!("<LocalMemory> local memory data : {:?}<LocalMemory>", map))
    );
}

#[test]
fn calculator_compute_asks_line_by_line() {
    let tool = ProximaTool::Calculator;
    let input = s(" 2+3 \n 4*5 ");
    assert_eq!(
        tool.respond_to(s("compute"), input.clone(), None, &vec![], 0),
        ToolOutcome::Needs(ToolRequest::Evaluate(s("2+3")))
    );
    let one = vec![ToolAnswer::Value(s("5.0000"))];
    assert_eq!(
        tool.respond_to(s("compute"), input.clone(), None, &one, 0),
        ToolOutcome::Needs(ToolRequest::Evaluate(s("4*5")))
    );
    let two = vec![ToolAnswer::Value(s("5.0000")), ToolAnswer::Value(s("20.0000"))];
    assert_eq!(
        tool.respond_to(s("compute"), input.clone(), None, &two, 0),
        ToolOutcome::Finished(Ok((output("Calculator", "compute", "2+3 = 5.00004*5 = 20.0000"), None)), 2)
    );
    let offset = vec![ToolAnswer::Failed(s("skipped")), ToolAnswer::Value(s("5.0000")), ToolAnswer::Value(s("20.0000"))];
    assert_eq!(
        tool.respond_to(s("compute"), input, None, &offset, 1),
        ToolOutcome::Finished(Ok((output("Calculator", "compute", "2+3 = 5.00004*5 = 20.0000"), None)), 2)
    );
}

#[test]
fn calculator_compute_reports_errors() {
    let tool = ProximaTool::Calculator;
    assert_eq!(
        tool.respond_to(s("compute"), s("  \n "), None, &vec![], 0),
        ToolOutcome::Finished(
            Err(ProximaToolCallError::Parsing(ToolParsingError::BadNumberOfArguments {
                expected: 1,
                found: 0,
                remarks: s("You must provide at least 1 expression to compute"),
            })),
            0
        )
    );
    let answers = vec![ToolAnswer::Value(s("1.0000")), ToolAnswer::Failed(s("bad token"))];
    assert_eq!(
        tool.respond_to(s("compute"), s("1\n2+\n3"), None, &answers, 0),
        ToolOutcome::Finished(
            Err(ProximaToolCallError::Parsing(ToolParsingError::IncorrectExpression {
                expression: s("2+"),
                issue: s("bad token"),
            })),
            2
        )
    );
    let wrong = vec![ToolAnswer::Compared(Comparison::Less)];
    assert_eq!(
        tool.respond_to(s("compute"), s("1"), None, &wrong, 0),
        ToolOutcome::Finished(Err(ProximaToolCallError::Network(s("Unexpected answer"))), 1)
    );
}

#[test]
fn calculator_check_compares_by_the_first_sign() {
    let tool = ProximaTool::Calculator;
    let input = s("1+1 = 2\nno sign here\n3 > 4\n2 < 5");
    assert_eq!(
        tool.respond_to(s("check"), input.clone(), None, &vec![], 0),
        ToolOutcome::Needs(ToolRequest::Compare(s("1+1"), s("2")))
    );
    let answers = vec![
        ToolAnswer::Compared(Comparison::Equal),
        ToolAnswer::Compared(Comparison::Less),
        ToolAnswer::Compared(Comparison::Less),
    ];
    assert_eq!(
        tool.respond_to(s("check"), input.clone(), None, &answers[..1].iter().map(copy_answer).collect(), 0),
        ToolOutcome::Needs(ToolRequest::Compare(s("3"), s("4")))
    );
    assert_eq!(
        tool.respond_to(s("check"), input, None, &answers, 0),
        ToolOutcome::Finished(
            Ok((output("Calculator", "check", "1+1 = 2 -> TRUE3 > 4 -> FALSE2 < 5 -> TRUE"), None)),
            3
        )
    );
}

fn copy_answer(a: &ToolAnswer) -> ToolAnswer {
    match a {
        ToolAnswer::Value(v) => ToolAnswer::Value(v.clone()),
        ToolAnswer::Compared(c) => ToolAnswer::Compared(*c),
        ToolAnswer::Text(t) => ToolAnswer::Text(t.clone()),
        ToolAnswer::Failed(m) => ToolAnswer::Failed(m.clone()),
        ToolAnswer::SecondFailed(m) => ToolAnswer::SecondFailed(m.clone()),
        ToolAnswer::Found(_) => ToolAnswer::Found(vec![]),
        ToolAnswer::AgentReplied { context, chat_id } => ToolAnswer::AgentReplied { context: context.clone(), chat_id: *chat_id },
    }
}

#[test]
fn calculator_check_reports_errors() {
    let tool = ProximaTool::Calculator;
    assert_eq!(
        tool.respond_to(s("check"), s("1 > 2 > 3"), None, &vec![], 0),
        ToolOutcome::Finished(
            Err(ProximaToolCallError::Parsing(ToolParsingError::BadNumberOfArguments {
                expected: 2,
                found: 3,
                remarks: s("You must provide only 2 expressions to compare"),
            })),
            0
        )
    );
    assert_eq!(
        tool.respond_to(s("check"), s("a < 2"), None, &vec![ToolAnswer::Failed(s("unknown a"))], 0),
        ToolOutcome::Finished(
            Err(ProximaToolCallError::Parsing(ToolParsingError::IncorrectExpression { expression: s("a"), issue: s("unknown a") })),
            1
        )
    );
    assert_eq!(
        tool.respond_to(s("check"), s("1 < b"), None, &vec![ToolAnswer::SecondFailed(s("unknown b"))], 0),
        ToolOutcome::Finished(
            Err(ProximaToolCallError::Parsing(ToolParsingError::IncorrectExpression { expression: s("b"), issue: s("unknown b") })),
            1
        )
    );
    assert_eq!(
        tool.respond_to(s("check"), s(""), None, &vec![], 0),
        ToolOutcome::Finished(
            Err(ProximaToolCallError::Parsing(ToolParsingError::BadNumberOfArguments {
                expected: 1,
                found: 0,
                remarks: s("You must provide at least 1 line of expressions to check"),
            })),
            0
        )
    );
}

#[test]
fn web_search_parses_count_and_query() {
    let tool = ProximaTool::Web;
    assert_eq!(
        tool.respond_to(s("search"), s("3  \"verified rust\" "), None, &vec![], 0),
        ToolOutcome::Needs(ToolRequest::Search { results: 3, query: s("verified rust") })
    );
    assert_eq!(
        tool.respond_to(s("search"), s("50 a b"), None, &vec![], 0),
        ToolOutcome::Needs(ToolRequest::Search { results: 20, query: s("a b") })
    );
    let found = vec![ToolAnswer::Found(vec![
        SearchResult { title: s("Cats"), url: s("http://cats"), snippet: s("about cats") },
        SearchResult { title: s("Dogs"), url: s("http://dogs"), snippet: s("about dogs") },
    ])];
    assert_eq!(
        tool.respond_to(s("search"), s("2 cats"), None, &found, 0),
        ToolOutcome::Finished(
            Ok((
                output(
                    "Web",
                    "search",
                    "Query: 2 cats\n#####\nTitle: Cats\nURL: http://cats\nSnippet: about cats\n-----------------\nTitle: Dogs\nURL: http://dogs\nSnippet: about dogs\n-----------------\n"
                ),
                None
            )),
            1
        )
    );
}

#[test]
fn web_search_reports_errors() {
    let tool = ProximaTool::Web;
    assert_eq!(
        tool.respond_to(s("search"), s("cats"), None, &vec![], 0),
        ToolOutcome::Finished(
            Err(ProximaToolCallError::Parsing(ToolParsingError::BadNumberOfArguments {
                expected: 2,
                found: 1,
                remarks: s("a query has 2 arguments, the number of results and the text of the query itself"),
            })),
            0
        )
    );
    assert_eq!(
        tool.respond_to(s("search"), s("many cats"), None, &vec![], 0),
        ToolOutcome::Finished(
            Err(ProximaToolCallError::Parsing(ToolParsingError::BadNumberOfArguments {
                expected: 1,
                found: 0,
                remarks: s("The first argument on each line must be "),
            })),
            0
        )
    );
    assert_eq!(
        tool.respond_to(s("search"), s("2 cats"), None, &vec![ToolAnswer::Found(vec![])], 0),
        ToolOutcome::Finished(
            Err(ProximaToolCallError::WebError(s("There are no answers to your query, this is highly likely to be a result of exceeding search rate limits. Do not use the search tool again in this chat and say it to the user in order to set correct expectations for information quality."))),
            1
        )
    );
    assert_eq!(
        tool.respond_to(s("search"), s("2 cats"), None, &vec![ToolAnswer::Failed(s("timeout"))], 0),
        ToolOutcome::Finished(Err(ProximaToolCallError::WebError(s("timeout"))), 1)
    );
    assert_eq!(
        tool.respond_to(s("search"), s(""), None, &vec![], 0),
        ToolOutcome::Finished(
            Err(ProximaToolCallError::Parsing(ToolParsingError::BadNumberOfArguments {
                expected: 1,
                found: 0,
                remarks: s("You must provide at least 1 query to search"),
            })),
            0
        )
    );
}

#[test]
fn web_open_reads_each_address() {
    let tool = ProximaTool::Web;
    assert_eq!(
        tool.respond_to(s("open"), s("http://a\nhttp://b"), None, &vec![], 0),
        ToolOutcome::Needs(ToolRequest::Open(s("http://a")))
    );
    let answers = vec![ToolAnswer::Text(s("A")), ToolAnswer::Text(s("B"))];
    assert_eq!(
        tool.respond_to(s("open"), s("http://a\nhttp://b"), None, &answers, 0),
        ToolOutcome::Finished(
            Ok((output("Web", "open", "http://a : ```A```\nhttp://b : ```B```\n"), None)),
            2
        )
    );
    assert_eq!(
        tool.respond_to(s("open"), s("http://a"), None, &vec![ToolAnswer::Failed(s("404"))], 0),
        ToolOutcome::Finished(Err(ProximaToolCallError::WebError(s("404"))), 1)
    );
    assert_eq!(
        tool.respond_to(s("open"), s(" "), None, &vec![], 0),
        ToolOutcome::Finished(
            Err(ProximaToolCallError::Parsing(ToolParsingError::BadNumberOfArguments {
                expected: 1,
                found: 0,
                remarks: s("You must provide at least 1 website to open"),
            })),
            0
        )
    );
}

#[test]
fn python_hands_the_input_on_and_sorts_the_reply() {
    let tool = ProximaTool::Python;
    assert_eq!(
        tool.respond_to(s("run"), s("print(1)\n"), None, &vec![], 0),
        ToolOutcome::Needs(ToolRequest::Python { mode: s("run"), data: s("print(1)\n") })
    );
    let reply = vec![ToolAnswer::Text(s("junkstdout_prox1\nstderr_proxoopsstdout_prox2"))];
    assert_eq!(
        tool.respond_to(s("run"), s("print(1)\n"), None, &reply, 0),
        ToolOutcome::Finished(Ok((output("Python", "run", "stdout:\n1\n2\nstderr:\noops\n"), None)), 1)
    );
    assert_eq!(
        tool.respond_to(s("eval"), s("1"), None, &vec![ToolAnswer::Failed(s("Couldn't reach Python server : refused"))], 0),
        ToolOutcome::Finished(Err(ProximaToolCallError::Network(s("Couldn't reach Python server : refused"))), 1)
    );
}

fn registry(allocatable: Vec<ProximaTool>) -> AgentRegistry {
    AgentRegistry { agents: vec![], counter: 0, allocatable_tools: allocatable }
}

fn ai(text: &str) -> ContextPart {
    ContextPart::new(vec![ContextData::Text(s(text))], ContextPosition::AI)
}

#[test]
fn agent_run_starts_an_agent_and_keeps_its_record() {
    let tool = ProximaTool::Agent;
    let data = ProximaToolData::Agent(registry(vec![ProximaTool::Calculator, ProximaTool::Web]));
    let input = s("helper\ndefault model\nCalculator, Web\n2+2 please\nthanks");
    assert_eq!(
        tool.respond_to(s("run"), input.clone(), Some(&data), &vec![], 0),
        ToolOutcome::Needs(ToolRequest::StartAgent {
            name: s("helper"),
            model: s("default model"),
            tools: vec![ProximaTool::Calculator, ProximaTool::Web],
            prompt: s("2+2 please\nthanks"),
        })
    );
    let context = WholeContext::new(vec![ai("ignored"), ai("so <response>4</response> there")]);
    let answers = vec![ToolAnswer::AgentReplied { context, chat_id: 7 }];
    let expected = ProximaToolData::Agent(AgentRegistry {
        agents: vec![AgentRecord {
            name: s("helper"),
            model: s("default model"),
            allowed_tools: vec![ProximaTool::Calculator, ProximaTool::Web],
            status: AgentStatus::Standby,
            chat_id: 7,
        }],
        counter: 1,
        allocatable_tools: vec![ProximaTool::Calculator, ProximaTool::Web],
    });
    assert_eq!(
        tool.respond_to(s("run"), input, Some(&data), &answers, 0),
        ToolOutcome::Finished(Ok((output("Agent", "run", "helper\n4"), Some(expected))), 1)
    );
}

#[test]
fn agent_run_rejects_tools_that_are_not_allocatable() {
    let tool = ProximaTool::Agent;
    let data = ProximaToolData::Agent(registry(vec![ProximaTool::Calculator]));
    assert_eq!(
        tool.respond_to(s("run"), s("a\nm\nCalculator,Web\np"), Some(&data), &vec![], 0),
        ToolOutcome::Finished(
            Err(ProximaToolCallError::Parsing(ToolParsingError::BadElementName {
                expected: s("an allocatable tool"),
                found: s("Calculator,Web"),
            })),
            0
        )
    );
    assert_eq!(
        tool.respond_to(s("run"), s("a\nm\nCalculator"), Some(&data), &vec![], 0),
        ToolOutcome::Finished(
            Err(ProximaToolCallError::Parsing(ToolParsingError::BadNumberOfArguments {
                expected: 4,
                found: 3,
                remarks: s("The input lines are the name of the agent, its model, its tools and then the prompt"),
            })),
            0
        )
    );
}

#[test]
fn agent_respond_continues_a_known_agent() {
    let tool = ProximaTool::Agent;
    let record = AgentRecord {
        name: s("helper"),
        model: s("m"),
        allowed_tools: vec![],
        status: AgentStatus::Running,
        chat_id: 3,
    };
    let data = ProximaToolData::Agent(AgentRegistry { agents: vec![record], counter: 1, allocatable_tools: vec![] });
    assert_eq!(
        tool.respond_to(s("respond"), s("helper\nand 3+3?"), Some(&data), &vec![], 0),
        ToolOutcome::Needs(ToolRequest::ContinueAgent { chat_id: 3, prompt: s("and 3+3?") })
    );
    let answers = vec![ToolAnswer::AgentReplied { context: WholeContext::new(vec![ai("<response>6</response>")]), chat_id: 3 }];
    let expected = ProximaToolData::Agent(AgentRegistry {
        agents: vec![AgentRecord { name: s("helper"), model: s("m"), allowed_tools: vec![], status: AgentStatus::Standby, chat_id: 3 }],
        counter: 1,
        allocatable_tools: vec![],
    });
    assert_eq!(
        tool.respond_to(s("respond"), s("helper\nand 3+3?"), Some(&data), &answers, 0),
        ToolOutcome::Finished(Ok((output("Agent", "respond", "helper\n6"), Some(expected))), 1)
    );
    assert_eq!(
        tool.respond_to(s("respond"), s("nobody\nhi"), Some(&data), &vec![], 0),
        ToolOutcome::Finished(
            Err(ProximaToolCallError::Parsing(ToolParsingError::BadElementName {
                expected: s("the name of an agent"),
                found: s("nobody"),
            })),
            0
        )
    );
}

#[test]
fn tools_keep_one_entry_per_tool() {
    let mut tools = Tools::from_parts(vec![ProximaTool::LocalMemory], vec![]);
    assert_eq!(tools.get_data(ProximaTool::LocalMemory), None);
    tools.set_data(ProximaTool::LocalMemory, ProximaToolData::LocalMemory(vec![]));
    tools.set_data(ProximaTool::LocalMemory, ProximaToolData::LocalMemory(vec![(s("k"), s("v"))]));
    assert_eq!(
        tools.get_data(ProximaTool::LocalMemory),
        Some(&ProximaToolData::LocalMemory(vec![(s("k"), s("v"))]))
    );
    let insert = tools.get_tool_data_insert();
    assert_eq!(insert.get_data().len(), 1);
    assert_eq!(*insert.get_position(), ContextPosition::Tool);
    let prompt = tools.get_tool_calling_sys_prompt();
    assert_eq!(*prompt.get_position(), ContextPosition::System);
    assert!(prompt.joined_text().ends_with("</Tool>\n</ToolUse>"));
}
