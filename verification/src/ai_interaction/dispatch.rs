//! The tool dispatcher: finds the calls in a reply of the model, runs each
//! with its tool, and puts what the tools answer into one tool fragment.

use crate::ai_interaction::markup::{node_views, parse_markup, parsed_roots, MarkupNode, MarkupView};
use crate::ai_interaction::tools::{
    answer_views, data_fits, error_output_text, kept_for, kept_with, responded,
    tool_named, valid_action, ProximaTool, ProximaToolCallError, ProximaToolCallErrorView,
    ToolAnswer, ToolAnswerView, ToolOutcome, ToolOutcomeView, ToolParsingError,
    ToolParsingErrorView, ToolRequest, ToolRequestView, Tools, ToolsView,
};
use crate::database::context::{
    data_views, ContextData, ContextDataView, ContextPart, ContextPartView, ContextPosition,
};
use crate::text::{contains, contains_text, same_text, trim, trim_text};
use vstd::prelude::*;

verus! {

/// How far a call has come with the answers it was given.
#[derive(PartialEq, Eq, Debug)]
pub enum CallOutcome {
    /// It needs this work done outside.
    Needs(ToolRequest),
    /// It is over after so many answers: with its output and the tools as
    /// they are afterwards, or with an error fragment.
    Finished(Result<(ContextData, Tools), ContextPart>, usize),
}

/// The mathematical value of a [`CallOutcome`].
pub enum CallOutcomeView {
    Needs(ToolRequestView),
    Finished(Result<(ContextDataView, ToolsView), ContextPartView>, nat),
}

impl View for CallOutcome {
    type V = CallOutcomeView;

    open spec fn view(&self) -> CallOutcomeView {
        match self {
            CallOutcome::Needs(request) => CallOutcomeView::Needs(request@),
            CallOutcome::Finished(Ok((data, tools)), used) => CallOutcomeView::Finished(
                Ok((data@, tools@)),
                *used as nat,
            ),
            CallOutcome::Finished(Err(part), used) => CallOutcomeView::Finished(
                Err(part@),
                *used as nat,
            ),
        }
    }
}

impl CallOutcome {
    /// Whether the call, where it is over, has used at most `given` answers.
    pub open spec fn within(self, given: int) -> bool {
        match self {
            CallOutcome::Finished(_, used) => used <= given,
            CallOutcome::Needs(_) => true,
        }
    }
}

/// The text of an element of a call: that of its first child where that is
/// text, `otherwise` where it is something else, and empty without children.
pub open spec fn inner_text(children: Seq<MarkupView>, otherwise: Seq<char>) -> Seq<char> {
    if children.len() == 0 {
        Seq::empty()
    } else {
        match children[0] {
            MarkupView::Text(text) => text,
            _ => otherwise,
        }
    }
}

/// What one part of a call says, or why it cannot be read: the part has to
/// be an element called `name`.
pub open spec fn call_part(node: MarkupView, name: Seq<char>, otherwise: Seq<char>) -> Result<
    Seq<char>,
    ToolParsingErrorView,
> {
    match node {
        MarkupView::Element(found, children) => if trim(found) == name {
            Ok(inner_text(children, otherwise))
        } else {
            Err(ToolParsingErrorView::BadElementName { expected: name, found: trim(found) })
        },
        _ => Err(ToolParsingErrorView::NotAnElement),
    }
}

/// The error fragment for a call of `tool` with `action`.
pub open spec fn error_part(error: ProximaToolCallErrorView, tool: Seq<char>, action: Seq<char>)
    -> ContextPartView {
    ContextPartView {
        data: seq![ContextDataView::Text(error_output_text(error, tool, action))],
        position: ContextPosition::Tool,
    }
}

/// The outcome of a call that cannot be read.
pub open spec fn unreadable(error: ToolParsingErrorView, tool: Seq<char>, action: Seq<char>)
    -> CallOutcomeView {
    CallOutcomeView::Finished(
        Err(error_part(ProximaToolCallErrorView::Parsing(error), tool, action)),
        0,
    )
}

/// How far the call with the parts `children` comes with `answers`: the
/// parts are the tool, the action and the input, in that order; the tool is
/// one that exists, the action one of its actions, and the tool has its
/// data. What the tool answers is the output; data that it leaves is kept.
pub open spec fn called(tools: ToolsView, children: Seq<MarkupView>, answers: Seq<ToolAnswerView>)
    -> CallOutcomeView {
    let unparsed = "Couldn't be parsed"@;
    if children.len() != 3 {
        unreadable(ToolParsingErrorView::NotAnElement, unparsed, unparsed)
    } else {
        match call_part(children[0], "tool"@, "NOT A TOOL"@) {
            Err(ToolParsingErrorView::NotAnElement) => unreadable(
                ToolParsingErrorView::NotAnElement,
                "Tool couldn't be parsed"@,
                unparsed,
            ),
            Err(error) => unreadable(error, unparsed, unparsed),
            Ok(tool_name) => match tool_named(tool_name) {
                None => unreadable(
                    ToolParsingErrorView::NotAnElement,
                    "Tool name couldn't be parsed"@,
                    unparsed,
                ),
                Some(tool) => match call_part(children[1], "action"@, "NOT AN ACTION"@) {
                    Err(ToolParsingErrorView::NotAnElement) => unreadable(
                        ToolParsingErrorView::NotAnElement,
                        tool_name,
                        "Action couldn't be parsed"@,
                    ),
                    Err(error) => unreadable(error, tool_name, unparsed),
                    Ok(action) => if !valid_action(tool, action) {
                        unreadable(
                            ToolParsingErrorView::NotAnElement,
                            tool_name,
                            "Invalid action"@,
                        )
                    } else {
                        match call_part(children[2], "in_data"@, "NOT AN INPUT"@) {
                            Err(ToolParsingErrorView::BadElementName { expected, found }) => {
                                unreadable(
                                    ToolParsingErrorView::BadElementName {
                                        expected: "input"@,
                                        found,
                                    },
                                    tool_name,
                                    action,
                                )
                            },
                            Err(error) => unreadable(error, tool_name, action),
                            Ok(input) => {
                                let kept = kept_for(tools.tool_data, tool);
                                if !data_fits(tool, kept) {
                                    unreadable(
                                        ToolParsingErrorView::NotAnElement,
                                        tool_name,
                                        "Tool has no data"@,
                                    )
                                } else {
                                    match responded(tool, action, input, kept, answers) {
                                        ToolOutcomeView::Needs(request) => CallOutcomeView::Needs(
                                            request,
                                        ),
                                        ToolOutcomeView::Finished(Ok((output, left)), used) => {
                                            CallOutcomeView::Finished(
                                                Ok(
                                                    (
                                                        output,
                                                        match left {
                                                            Some(data) => ToolsView {
                                                                tool_data: kept_with(
                                                                    tools.tool_data,
                                                                    tool,
                                                                    data,
                                                                ),
                                                                ..tools
                                                            },
                                                            None => tools,
                                                        },
                                                    ),
                                                ),
                                                used,
                                            )
                                        },
                                        ToolOutcomeView::Finished(Err(error), used) => {
                                            CallOutcomeView::Finished(
                                                Err(error_part(error, tool_name, action)),
                                                used,
                                            )
                                        },
                                    }
                                }
                            },
                        }
                    },
                },
            },
        }
    }
}

fn read_call_part(node: &MarkupNode, name: &str, otherwise: &str) -> (r: Result<
    String,
    ToolParsingError,
>)
    ensures
        match r {
            Ok(text) => call_part(node@, name@, otherwise@) == Ok::<
                Seq<char>,
                ToolParsingErrorView,
            >(text@),
            Err(error) => call_part(node@, name@, otherwise@) == Err::<
                Seq<char>,
                ToolParsingErrorView,
            >(error@),
        },
{
    match node {
        MarkupNode::Element(found, children) => {
            proof {
                let ghost kids = node@->Element_1;
                assert(node@ is Element);
                assert(kids.len() == children@.len());
                if children@.len() > 0 {
                    assert(kids[0] == children@[0]@);
                }
            }
            let found = trim_text(found.as_str());
            if same_text(found.as_str(), name) {
                if children.len() == 0 {
                    Ok(String::new())
                } else {
                    match &children[0] {
                        MarkupNode::Text(text) => Ok(text.clone()),
                        _ => Ok(otherwise.to_string()),
                    }
                }
            } else {
                Err(ToolParsingError::BadElementName { expected: name.to_string(), found })
            }
        },
        _ => Err(ToolParsingError::NotAnElement),
    }
}

fn unreadable_call(error: ToolParsingError, tool: String, action: String) -> (r: CallOutcome)
    ensures
        r@ == unreadable(error@, tool@, action@),
{
    CallOutcome::Finished(
        Err(ProximaToolCallError::Parsing(error).generate_error_output(tool, action)),
        0,
    )
}

impl Tools {
    /// Runs the call with the parts `children` as far as the answers from
    /// `from` on allow.
    pub fn call(&self, children: &Vec<MarkupNode>, answers: &Vec<ToolAnswer>, from: usize) -> (r:
        CallOutcome)
        requires
            from <= answers.len(),
        ensures
            r@ == called(self@, node_views(children@), answer_views(answers@).skip(from as int)),
            r.within(answers.len() - from),
    {
        if children.len() != 3 {
            return unreadable_call(
                ToolParsingError::NotAnElement,
                "Couldn't be parsed".to_string(),
                "Couldn't be parsed".to_string(),
            );
        }
        proof {
            assert(node_views(children@)[0] == children@[0]@);
            assert(node_views(children@)[1] == children@[1]@);
            assert(node_views(children@)[2] == children@[2]@);
        }
        let tool_name = match read_call_part(&children[0], "tool", "NOT A TOOL") {
            Ok(name) => name,
            Err(ToolParsingError::NotAnElement) => {
                return unreadable_call(
                    ToolParsingError::NotAnElement,
                    "Tool couldn't be parsed".to_string(),
                    "Couldn't be parsed".to_string(),
                );
            },
            Err(error) => {
                return unreadable_call(
                    error,
                    "Couldn't be parsed".to_string(),
                    "Couldn't be parsed".to_string(),
                );
            },
        };
        let tool = match ProximaTool::try_from_string(tool_name.clone()) {
            Some(tool) => tool,
            None => {
                return unreadable_call(
                    ToolParsingError::NotAnElement,
                    "Tool name couldn't be parsed".to_string(),
                    "Couldn't be parsed".to_string(),
                );
            },
        };
        let action = match read_call_part(&children[1], "action", "NOT AN ACTION") {
            Ok(action) => action,
            Err(ToolParsingError::NotAnElement) => {
                return unreadable_call(
                    ToolParsingError::NotAnElement,
                    tool_name,
                    "Action couldn't be parsed".to_string(),
                );
            },
            Err(error) => {
                return unreadable_call(error, tool_name, "Couldn't be parsed".to_string());
            },
        };
        if !tool.is_valid_action(&action) {
            return unreadable_call(
                ToolParsingError::NotAnElement,
                tool_name,
                "Invalid action".to_string(),
            );
        }
        let input = match read_call_part(&children[2], "in_data", "NOT AN INPUT") {
            Ok(input) => input,
            Err(ToolParsingError::BadElementName { expected, found }) => {
                return unreadable_call(
                    ToolParsingError::BadElementName { expected: "input".to_string(), found },
                    tool_name,
                    action,
                );
            },
            Err(error) => {
                return unreadable_call(error, tool_name, action);
            },
        };
        let kept = self.get_data(tool);
        let fits = match tool {
            ProximaTool::LocalMemory => match kept {
                Some(crate::ai_interaction::tools::ProximaToolData::LocalMemory(_)) => true,
                _ => false,
            },
            ProximaTool::Agent => match kept {
                Some(crate::ai_interaction::tools::ProximaToolData::Agent(_)) => true,
                _ => false,
            },
            _ => true,
        };
        if !fits {
            return unreadable_call(
                ToolParsingError::NotAnElement,
                tool_name,
                "Tool has no data".to_string(),
            );
        }
        match tool.respond_to(action.clone(), input, kept, answers, from) {
            ToolOutcome::Needs(request) => CallOutcome::Needs(request),
            ToolOutcome::Finished(Ok((output, left)), used) => {
                let mut tools = self.clone();
                match left {
                    Some(data) => {
                        tools.set_data(tool, data);
                    },
                    None => {},
                }
                CallOutcome::Finished(Ok((output, tools)), used)
            },
            ToolOutcome::Finished(Err(error), used) => CallOutcome::Finished(
                Err(error.generate_error_output(tool_name, action)),
                used,
            ),
        }
    }
}

/// How far the dispatch of a reply has come with the answers it was given.
#[derive(PartialEq, Eq, Debug)]
pub enum DispatchOutcome {
    /// It needs this work done outside.
    Needs(ToolRequest),
    /// It is over: with the tool fragment that holds what the tools
    /// answered, and the tools as they are afterwards.
    Done(ContextPart, Tools),
}

/// The mathematical value of a [`DispatchOutcome`].
pub enum DispatchOutcomeView {
    Needs(ToolRequestView),
    Done(ContextPartView, ToolsView),
}

impl View for DispatchOutcome {
    type V = DispatchOutcomeView;

    open spec fn view(&self) -> DispatchOutcomeView {
        match self {
            DispatchOutcome::Needs(request) => DispatchOutcomeView::Needs(request@),
            DispatchOutcome::Done(part, tools) => DispatchOutcomeView::Done(part@, tools@),
        }
    }
}

/// How far the calls among the nodes from `i` on come.
pub enum CallsOutcome {
    Needs(ToolRequestView),
    Done(Seq<ContextDataView>, ToolsView),
}

/// Whether `node` is a call: an element called `call`.
pub open spec fn is_call(node: MarkupView) -> bool {
    match node {
        MarkupView::Element(name, _) => trim(name) == "call"@,
        _ => false,
    }
}

/// The parts of a call.
pub open spec fn call_children(node: MarkupView) -> Seq<MarkupView> {
    match node {
        MarkupView::Element(_, children) => children,
        _ => Seq::empty(),
    }
}

/// How far the calls among the nodes from `i` on come with the answers from
/// `a` on, after the calls before have given `outputs` and left `tools`:
/// each call in turn adds its output, or its error, and takes the answers
/// that it needs; the first that finds an answer missing says what is
/// needed. What is no call is passed over.
pub open spec fn dispatched(
    nodes: Seq<MarkupView>,
    tools: ToolsView,
    answers: Seq<ToolAnswerView>,
    i: nat,
    a: nat,
    outputs: Seq<ContextDataView>,
) -> CallsOutcome
    decreases nodes.len() - i,
{
    if i >= nodes.len() {
        CallsOutcome::Done(outputs, tools)
    } else if is_call(nodes[i as int]) {
        match called(tools, call_children(nodes[i as int]), answers.skip(a as int)) {
            CallOutcomeView::Needs(request) => CallsOutcome::Needs(request),
            CallOutcomeView::Finished(Ok((output, after)), used) => dispatched(
                nodes,
                after,
                answers,
                i + 1,
                a + used,
                outputs.push(output),
            ),
            CallOutcomeView::Finished(Err(part), used) => dispatched(
                nodes,
                tools,
                answers,
                i + 1,
                a + used,
                outputs + part.data,
            ),
        }
    } else {
        dispatched(nodes, tools, answers, i + 1, a, outputs)
    }
}

/// A call leaves tools that are in order in order.
pub proof fn lemma_call_keeps_tools_ok(
    tools: ToolsView,
    children: Seq<MarkupView>,
    answers: Seq<ToolAnswerView>,
)
    requires
        tools.wf(),
    ensures
        called(tools, children, answers) matches CallOutcomeView::Finished(Ok((_, after)), _)
            ==> after.wf(),
{
    if children.len() == 3 {
        match call_part(children[0], "tool"@, "NOT A TOOL"@) {
            Ok(tool_name) => match tool_named(tool_name) {
                Some(tool) => match call_part(children[1], "action"@, "NOT AN ACTION"@) {
                    Ok(action) => match call_part(children[2], "in_data"@, "NOT AN INPUT"@) {
                        Ok(input) => {
                            let kept = kept_for(tools.tool_data, tool);
                            crate::ai_interaction::tools::lemma_kept_find_bounds(
                                tools.tool_data,
                                tool,
                            );
                            crate::ai_interaction::tools::lemma_call_keeps_data_ok(
                                tool,
                                action,
                                input,
                                kept,
                                answers,
                            );
                            match responded(tool, action, input, kept, answers) {
                                ToolOutcomeView::Finished(Ok((_, Some(data))), _) => {
                                    crate::ai_interaction::tools::lemma_kept_stays_ok(
                                        tools.tool_data,
                                        tool,
                                        data,
                                    );
                                },
                                _ => {},
                            }
                        },
                        _ => {},
                    },
                    _ => {},
                },
                _ => {},
            },
            _ => {},
        }
    }
}

/// The calls of a reply leave tools that are in order in order.
pub proof fn lemma_dispatch_keeps_tools_ok(
    nodes: Seq<MarkupView>,
    tools: ToolsView,
    answers: Seq<ToolAnswerView>,
    i: nat,
    a: nat,
    outputs: Seq<ContextDataView>,
)
    requires
        tools.wf(),
    ensures
        dispatched(nodes, tools, answers, i, a, outputs) matches CallsOutcome::Done(_, after)
            ==> after.wf(),
    decreases nodes.len() - i,
{
    if i < nodes.len() {
        if is_call(nodes[i as int]) {
            lemma_call_keeps_tools_ok(tools, call_children(nodes[i as int]), answers.skip(a as int));
            match called(tools, call_children(nodes[i as int]), answers.skip(a as int)) {
                CallOutcomeView::Finished(Ok((output, after)), used) => {
                    lemma_dispatch_keeps_tools_ok(
                        nodes,
                        after,
                        answers,
                        i + 1,
                        a + used,
                        outputs.push(output),
                    );
                },
                CallOutcomeView::Finished(Err(part), used) => {
                    lemma_dispatch_keeps_tools_ok(
                        nodes,
                        tools,
                        answers,
                        i + 1,
                        a + used,
                        outputs + part.data,
                    );
                },
                _ => {},
            }
        } else {
            lemma_dispatch_keeps_tools_ok(nodes, tools, answers, i + 1, a, outputs);
        }
    }
}

/// The tool fragment that holds `outputs`.
pub open spec fn outputs_part(outputs: Seq<ContextDataView>) -> ContextPartView {
    ContextPartView {
        data: seq![ContextDataView::Text("<outputs>\n"@)] + outputs + seq![
            ContextDataView::Text("\n</outputs>"@),
        ],
        position: ContextPosition::Tool,
    }
}

/// How far the dispatch of a reply that parses to `parsed` comes with
/// `answers`. A reply that does not parse holds no call.
pub open spec fn tool_response(
    parsed: Option<Seq<MarkupView>>,
    tools: ToolsView,
    answers: Seq<ToolAnswerView>,
) -> DispatchOutcomeView {
    match parsed {
        Some(nodes) => match dispatched(nodes, tools, answers, 0, 0, Seq::empty()) {
            CallsOutcome::Needs(request) => DispatchOutcomeView::Needs(request),
            CallsOutcome::Done(outputs, after) => DispatchOutcomeView::Done(
                outputs_part(outputs),
                after,
            ),
        },
        None => DispatchOutcomeView::Done(outputs_part(Seq::empty()), tools),
    }
}

fn wrap_outputs(outputs: Vec<ContextData>) -> (r: ContextPart)
    ensures
        r@ == outputs_part(data_views(outputs@)),
{
    let mut data = outputs;
    let ghost given = data@;
    data.insert(0, ContextData::Text("<outputs>\n".to_string()));
    data.push(ContextData::Text("\n</outputs>".to_string()));
    proof {
        assert(data_views(data@) =~= seq![ContextDataView::Text("<outputs>\n"@)] + data_views(
            given,
        ) + seq![ContextDataView::Text("\n</outputs>"@)]);
    }
    ContextPart::new(data, ContextPosition::Tool)
}

/// Dispatches the calls among `nodes` as far as `answers` allow.
pub fn dispatch_nodes(nodes: &Vec<MarkupNode>, tools: &Tools, answers: &Vec<ToolAnswer>) -> (r:
    DispatchOutcome)
    ensures
        r@ == tool_response(Some(node_views(nodes@)), tools@, answer_views(answers@)),
{
    let ghost all = node_views(nodes@);
    let ghost given = answer_views(answers@);
    let mut outputs: Vec<ContextData> = Vec::new();
    let mut current = tools.clone();
    let mut i: usize = 0;
    let mut a: usize = 0;
    proof {
        assert(data_views(outputs@) =~= Seq::empty());
    }
    while i < nodes.len()
        invariant
            i <= nodes.len(),
            a <= answers.len(),
            all == node_views(nodes@),
            given == answer_views(answers@),
            dispatched(all, tools@, given, 0, 0, Seq::empty()) == dispatched(
                all,
                current@,
                given,
                i as nat,
                a as nat,
                data_views(outputs@),
            ),
        decreases nodes.len() - i,
    {
        proof {
            assert(all[i as int] == nodes@[i as int]@);
        }
        match &nodes[i] {
            MarkupNode::Element(name, children) => {
                proof {
                    let ghost kids = nodes@[i as int]@->Element_1;
                    assert(kids =~= node_views(children@));
                }
                let name = trim_text(name.as_str());
                if same_text(name.as_str(), "call") {
                    match current.call(children, answers, a) {
                        CallOutcome::Needs(request) => {
                            return DispatchOutcome::Needs(request);
                        },
                        CallOutcome::Finished(Ok((output, after)), used) => {
                            let ghost before = outputs@;
                            outputs.push(output);
                            proof {
                                assert(data_views(outputs@) =~= data_views(before).push(
                                    output@,
                                ));
                            }
                            current = after;
                            a = a + used;
                        },
                        CallOutcome::Finished(Err(part), used) => {
                            let ghost before = outputs@;
                            let mut items = crate::database::context::clone_data(
                                part.get_data(),
                            );
                            let ghost added = items@;
                            outputs.append(&mut items);
                            proof {
                                assert(data_views(outputs@) =~= data_views(before)
                                    + data_views(added));
                            }
                            a = a + used;
                        },
                    }
                }
            },
            _ => {},
        }
        i += 1;
    }
    DispatchOutcome::Done(wrap_outputs(outputs), current)
}

/// Dispatches the calls of a parsed reply as far as `answers` allow.
pub fn dispatch_parsed(
    parsed: &Option<Vec<MarkupNode>>,
    tools: &Tools,
    answers: &Vec<ToolAnswer>,
) -> (r: DispatchOutcome)
    ensures
        r@ == tool_response(
            match parsed {
                Some(nodes) => Some(node_views(nodes@)),
                None => None,
            },
            tools@,
            answer_views(answers@),
        ),
{
    match parsed {
        None => {
            let outputs: Vec<ContextData> = Vec::new();
            proof {
                assert(data_views(outputs@) =~= Seq::empty());
            }
            DispatchOutcome::Done(wrap_outputs(outputs), tools.clone())
        },
        Some(nodes) => dispatch_nodes(nodes, tools, answers),
    }
}

/// Dispatches the calls in the text of `response` as far as `answers` allow.
pub fn handle_tool_calling_response(
    response: &ContextPart,
    tools: &Tools,
    answers: &Vec<ToolAnswer>,
) -> (r: DispatchOutcome)
    ensures
        r@ == tool_response(parsed_roots(response@.text()), tools@, answer_views(answers@)),
{
    let text = response.joined_text();
    let parsed = parse_markup(text.as_str());
    dispatch_parsed(&parsed, tools, answers)
}

/// Whether `text` is a final answer in due form: it holds `<response>` and
/// `</response>`, and no `<call>`.
pub open spec fn is_valid_final(text: Seq<char>) -> bool {
    contains(text, "<response>"@) && contains(text, "</response>"@) && !contains(text, "<call>"@)
}

/// Whether `text` is a final answer that lacks its form: it holds no
/// `<call>`, and `<response>` or `</response>` is missing.
pub open spec fn looks_like_nonstandard_final(text: Seq<char>) -> bool {
    !(contains(text, "<response>"@) && contains(text, "</response>"@)) && !contains(
        text,
        "<call>"@,
    )
}

/// Whether `response` is a final answer in due form.
pub fn is_valid_tool_calling_response(response: &ContextPart) -> (r: bool)
    ensures
        r == is_valid_final(response@.text()),
{
    let text = response.joined_text();
    contains_text(text.as_str(), "<response>") && contains_text(text.as_str(), "</response>")
        && !contains_text(text.as_str(), "<call>")
}

/// Whether `response` is a final answer that lacks its form.
pub fn looks_like_nonstandard_final_response(response: &ContextPart) -> (r: bool)
    ensures
        r == looks_like_nonstandard_final(response@.text()),
{
    let text = response.joined_text();
    !(contains_text(text.as_str(), "<response>") && contains_text(text.as_str(), "</response>"))
        && !contains_text(text.as_str(), "<call>")
}

/// A call of the calculator leaves no data: what the tools keep stays as it was.
pub proof fn lemma_calculator_keeps_nothing(
    action: Seq<char>,
    input: Seq<char>,
    data: Option<crate::ai_interaction::tools::ProximaToolDataView>,
    answers: Seq<ToolAnswerView>,
)
    ensures
        match responded(ProximaTool::Calculator, action, input, data, answers) {
            ToolOutcomeView::Finished(Ok((_, left)), _) => left is None,
            _ => true,
        },
{
}

/// Dispatching a call of the calculator, whatever its action, leaves what
/// the tools keep unchanged.
pub proof fn lemma_calculator_call_keeps_tools(
    tools: ToolsView,
    children: Seq<MarkupView>,
    answers: Seq<ToolAnswerView>,
)
    requires
        children.len() == 3,
        call_part(children[0], "tool"@, "NOT A TOOL"@) matches Ok(name) && tool_named(name) == Some(
            ProximaTool::Calculator,
        ),
    ensures
        match called(tools, children, answers) {
            CallOutcomeView::Finished(Ok((_, after)), _) => after == tools,
            _ => true,
        },
{
}

} // verus!
