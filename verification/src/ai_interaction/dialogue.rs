//! The dialogue loop: a reply of the model is either final or calls tools;
//! what the tools answer goes back to the model, for a bounded number of turns.

use crate::ai_interaction::dispatch::{
    dispatch_parsed, is_valid_final, is_valid_tool_calling_response,
    looks_like_nonstandard_final, looks_like_nonstandard_final_response, tool_response,
    DispatchOutcome, DispatchOutcomeView,
};
use crate::ai_interaction::endpoint_api::{
    response_views, send_context_part_streaming_blocking, stream_events, EndpointRequestVariant,
    EndpointResponseVariant, EndpointResponseView,
};
use crate::ai_interaction::markup::{node_views, parse_markup, parsed_roots, MarkupNode, MarkupView};
use crate::ai_interaction::tools::{
    answer_views, data_inserts, ToolAnswer, ToolAnswerView, ToolRequest, ToolRequestView, Tools,
    ToolsView,
};
use crate::database::configuration::{optional_tools, ChatConfiguration};
use crate::database::context::{
    data_views, joined_text, lemma_joined_text_concat, lemma_joined_text_single, ContextData,
    ContextDataView, ContextPart, ContextPartView, ContextPosition, WholeContext,
};
use crate::text::{contains, matches_at};
use vstd::prelude::*;

verus! {

/// The greatest number of times that the answers of tools go back to the
/// model within one request.
pub const MAX_TURNS: usize = 8;

/// The state of the handler of one request.
#[derive(PartialEq, Eq, Debug)]
pub struct RequestHandler {
    context: WholeContext,
    tools: Option<Tools>,
    turn: usize,
    streaming: bool,
}

/// The mathematical value of a [`RequestHandler`].
pub struct HandlerStateView {
    pub context: Seq<ContextPartView>,
    pub tools: Option<ToolsView>,
    pub turn: nat,
    pub streaming: bool,
}

impl View for RequestHandler {
    type V = HandlerStateView;

    closed spec fn view(&self) -> HandlerStateView {
        HandlerStateView {
            context: self.context@,
            tools: optional_tools(self.tools),
            turn: self.turn as nat,
            streaming: self.streaming,
        }
    }
}

/// What the handler does next.
#[derive(PartialEq, Eq, Debug)]
pub enum DialogueStep {
    /// Have this work done outside, then go on with the same reply and the
    /// answer added to the answers.
    Needs(ToolRequest),
    /// Pass `events` on to the caller, submit `context` to the model, then
    /// go on with its reply and no answers.
    Issue { context: WholeContext, events: Vec<EndpointResponseVariant> },
    /// Answer the caller with this; the request is done.
    Emit(EndpointResponseVariant),
}

/// The mathematical value of a [`DialogueStep`].
pub enum DialogueStepView {
    Needs(ToolRequestView),
    Issue { context: Seq<ContextPartView>, events: Seq<EndpointResponseView> },
    Emit(EndpointResponseView),
}

impl View for DialogueStep {
    type V = DialogueStepView;

    open spec fn view(&self) -> DialogueStepView {
        match self {
            DialogueStep::Needs(request) => DialogueStepView::Needs(request@),
            DialogueStep::Issue { context, events } => DialogueStepView::Issue {
                context: context@,
                events: response_views(events@),
            },
            DialogueStep::Emit(response) => DialogueStepView::Emit(response@),
        }
    }
}

/// `part` with its items between the opening and the closing mark of a response.
pub open spec fn wrapped_response(part: ContextPartView) -> ContextPartView {
    ContextPartView {
        data: seq![ContextDataView::Text("<response>\n"@)] + part.data + seq![
            ContextDataView::Text("</response>\n"@),
        ],
        position: part.position,
    }
}

/// The fragment that shows the model what the tools keep.
pub open spec fn data_snapshot(tools: ToolsView) -> ContextPartView {
    ContextPartView { data: data_inserts(tools.tool_data), position: ContextPosition::Tool }
}

/// Whether another turn is taken on the reply with the text `text` after
/// `turn` turns: turns are left, and the reply holds a call.
pub open spec fn takes_turn(turn: nat, text: Seq<char>) -> bool {
    turn < MAX_TURNS && !is_valid_final(text) && !looks_like_nonstandard_final(text)
}

/// What the handler in `state` does with the reply `response`, which parses
/// to `parsed`, given `answers`, and the state it is in afterwards.
///
/// Without tools the reply is the answer. With tools, a reply that holds a
/// call, while turns are left, has its calls dispatched: the reply, what the
/// tools answered and what they keep join the dialogue, which goes back to
/// the model. Every other reply ends the dialogue: it joins the dialogue,
/// between the marks of a response where it lacks them, and the whole
/// dialogue is the answer.
pub open spec fn stepped(
    state: HandlerStateView,
    response: ContextPartView,
    parsed: Option<Seq<MarkupView>>,
    answers: Seq<ToolAnswerView>,
) -> (HandlerStateView, DialogueStepView) {
    match state.tools {
        None => (state, DialogueStepView::Emit(EndpointResponseView::Block(response))),
        Some(tools) => if takes_turn(state.turn, response.text()) {
            match tool_response(parsed, tools, answers) {
                DispatchOutcomeView::Needs(request) => (state, DialogueStepView::Needs(request)),
                DispatchOutcomeView::Done(outputs, after) => {
                    let context = state.context.push(response).push(outputs).push(
                        data_snapshot(after),
                    );
                    (
                        HandlerStateView {
                            context,
                            tools: Some(after),
                            turn: state.turn + 1,
                            streaming: state.streaming,
                        },
                        DialogueStepView::Issue {
                            context,
                            events: if state.streaming {
                                stream_events(outputs.data, outputs.position) + stream_events(
                                    data_snapshot(after).data,
                                    ContextPosition::Tool,
                                )
                            } else {
                                Seq::empty()
                            },
                        },
                    )
                },
            }
        } else {
            let last = if looks_like_nonstandard_final(response.text()) {
                wrapped_response(response)
            } else {
                response
            };
            let context = state.context.push(last);
            (
                HandlerStateView { context, ..state },
                DialogueStepView::Emit(EndpointResponseView::MultiTurnBlock(context)),
            )
        },
    }
}

impl RequestHandler {
    /// Whether no more turns were taken than may be.
    pub open spec fn wf(&self) -> bool {
        self@.turn <= MAX_TURNS
    }

    /// The handler of a request to answer `whole_context` under
    /// `chat_settings`, before the first reply.
    pub fn new(
        whole_context: WholeContext,
        chat_settings: Option<ChatConfiguration>,
        streaming: bool,
    ) -> (r: RequestHandler)
        ensures
            r@ == (HandlerStateView {
                context: whole_context@,
                tools: match chat_settings {
                    Some(settings) => settings@.tools,
                    None => None,
                },
                turn: 0,
                streaming,
            }),
            r.wf(),
    {
        let tools = match chat_settings {
            Some(settings) => settings.tools,
            None => None,
        };
        RequestHandler { context: whole_context, tools, turn: 0, streaming }
    }

    /// The handler of `request`, before the first reply; `None` for a
    /// request that asks for nothing.
    pub fn from_request(request: EndpointRequestVariant) -> (r: Option<RequestHandler>)
        ensures
            match request {
                EndpointRequestVariant::RespondToFullPrompt {
                    whole_context,
                    streaming,
                    session_type,
                    chat_settings,
                } => r matches Some(handler) && handler.wf() && handler@ == (HandlerStateView {
                    context: whole_context@,
                    tools: match chat_settings {
                        Some(settings) => settings@.tools,
                        None => None,
                    },
                    turn: 0,
                    streaming,
                }),
                EndpointRequestVariant::Continue => r is None,
            },
    {
        match request {
            EndpointRequestVariant::RespondToFullPrompt {
                whole_context,
                streaming,
                session_type,
                chat_settings,
            } => Some(RequestHandler::new(whole_context, chat_settings, streaming)),
            EndpointRequestVariant::Continue => None,
        }
    }

    /// Whether what the tools keep is in order: no tool has its data kept
    /// twice, and what is kept for each is a map.
    pub fn tools_in_order(&self) -> (r: bool)
        ensures
            r == tools_ok(self@),
    {
        match &self.tools {
            Some(tools) => tools.is_well_formed(),
            None => true,
        }
    }

    /// Whether the answer goes to the caller item by item.
    pub fn is_streaming(&self) -> (r: bool)
        ensures
            r == self@.streaming,
    {
        self.streaming
    }

    /// The dialogue as it stands.
    pub fn get_context(&self) -> (r: &WholeContext)
        ensures
            r@ == self@.context,
    {
        &self.context
    }

    /// The number of turns taken.
    pub fn get_turn(&self) -> (r: usize)
        ensures
            r == self@.turn,
    {
        self.turn
    }

    /// Goes on with the reply `response`, which parses to `parsed`, given
    /// the answers of the work done outside for it so far.
    pub fn respond_parsed(
        &mut self,
        response: ContextPart,
        parsed: &Option<Vec<MarkupNode>>,
        answers: &Vec<ToolAnswer>,
    ) -> (r: DialogueStep)
        requires
            old(self).wf(),
        ensures
            (final(self)@, r@) == stepped(
                old(self)@,
                response@,
                match parsed {
                    Some(nodes) => Some(node_views(nodes@)),
                    None => None,
                },
                answer_views(answers@),
            ),
            final(self).wf(),
    {
        let has_tools = self.tools.is_some();
        if !has_tools {
            return DialogueStep::Emit(EndpointResponseVariant::Block(response));
        }
        if self.turn < MAX_TURNS && !is_valid_tool_calling_response(&response)
            && !looks_like_nonstandard_final_response(&response) {
            let outcome = match &self.tools {
                Some(tools) => dispatch_parsed(parsed, tools, answers),
                None => {
                    return DialogueStep::Emit(EndpointResponseVariant::Block(response));
                },
            };
            match outcome {
                DispatchOutcome::Needs(request) => DialogueStep::Needs(request),
                DispatchOutcome::Done(outputs, after) => {
                    let snapshot = after.get_tool_data_insert();
                    let mut events: Vec<EndpointResponseVariant> = Vec::new();
                    if self.streaming {
                        let mut first = send_context_part_streaming_blocking(&outputs);
                        let mut second = send_context_part_streaming_blocking(&snapshot);
                        let ghost a = first@;
                        let ghost b = second@;
                        events.append(&mut first);
                        events.append(&mut second);
                        proof {
                            assert(response_views(events@) =~= response_views(a) + response_views(
                                b,
                            ));
                        }
                    } else {
                        proof {
                            assert(response_views(events@) =~= Seq::empty());
                        }
                    }
                    self.context.add_part(response);
                    self.context.add_part(outputs);
                    self.context.add_part(snapshot);
                    self.tools = Some(after);
                    self.turn = self.turn + 1;
                    DialogueStep::Issue { context: self.context.clone(), events }
                },
            }
        } else {
            let last = if looks_like_nonstandard_final_response(&response) {
                wrap_response(response)
            } else {
                response
            };
            self.context.add_part(last);
            DialogueStep::Emit(EndpointResponseVariant::MultiTurnBlock(self.context.clone()))
        }
    }

    /// Goes on with the reply `response`, given the answers of the work done
    /// outside for it so far.
    pub fn respond(&mut self, response: ContextPart, answers: &Vec<ToolAnswer>) -> (r: DialogueStep)
        requires
            old(self).wf(),
        ensures
            (final(self)@, r@) == stepped(
                old(self)@,
                response@,
                parsed_roots(response@.text()),
                answer_views(answers@),
            ),
            final(self).wf(),
    {
        let text = response.joined_text();
        let parsed = parse_markup(text.as_str());
        self.respond_parsed(response, &parsed, answers)
    }
}

/// `part` with its items between the opening and the closing mark of a response.
pub fn wrap_response(part: ContextPart) -> (r: ContextPart)
    ensures
        r@ == wrapped_response(part@),
{
    let position = *part.get_position();
    let mut data = crate::database::context::clone_data(part.get_data());
    let ghost given = data@;
    data.insert(0, ContextData::Text("<response>\n".to_string()));
    data.push(ContextData::Text("</response>\n".to_string()));
    proof {
        assert(data_views(data@) =~= seq![ContextDataView::Text("<response>\n"@)] + data_views(
            given,
        ) + seq![ContextDataView::Text("</response>\n"@)]);
    }
    ContextPart::new(data, position)
}

/// The marks of a response bring no call into a text that holds none.
pub proof fn lemma_wrapping_adds_no_call(text: Seq<char>)
    requires
        !contains(text, "<call>"@),
    ensures
        !contains("<response>\n"@ + text + "</response>\n"@, "<call>"@),
{
    reveal_strlit("<response>\n");
    reveal_strlit("</response>\n");
    reveal_strlit("<call>");
    let open = "<response>\n"@;
    let close = "</response>\n"@;
    let call = "<call>"@;
    let whole = open + text + close;
    assert forall|i: int| !matches_at(whole, call, i) by {
        if matches_at(whole, call, i) {
            let found = whole.subrange(i, i + 6);
            assert(found[0] == '<' && found[1] == 'c' && found[2] == 'a' && found[3] == 'l'
                && found[4] == 'l' && found[5] == '>');
            assert(whole[i] == '<' && whole[i + 1] == 'c');
            assert(whole[i + 2] == 'a' && whole[i + 3] == 'l' && whole[i + 4] == 'l' && whole[i
                + 5] == '>');
            let n = text.len() as int;
            if i < 11 {
                // Only the first character of the opening mark is `<`, and `r` follows it.
                assert(whole[i] == open[i]);
                assert(i == 0);
                assert(whole[1] == open[1]);
            } else if i + 6 <= 11 + n {
                assert(whole.subrange(i, i + 6) =~= text.subrange(i - 11, i - 11 + 6));
                assert(matches_at(text, call, i - 11));
            } else if i >= 11 + n {
                // Within the closing mark, `<` is followed by `/`.
                assert(whole[i] == close[i - 11 - n]);
                assert(i - 11 - n == 0);
                assert(whole[i + 1] == close[1]);
            } else {
                // The call would run from the text into the closing mark,
                // whose first character is `<`; no later character of a call is.
                let k = 11 + n - i;
                assert(1 <= k <= 5);
                assert(whole[i + k] == close[0]);
            }
        }
    }
}

/// The text of a fragment between the marks of a response is the text of
/// the fragment between those marks.
pub proof fn lemma_wrapped_text(part: ContextPartView)
    ensures
        wrapped_response(part).text() == "<response>\n"@ + part.text() + "</response>\n"@,
{
    let open = seq![ContextDataView::Text("<response>\n"@)];
    let close = seq![ContextDataView::Text("</response>\n"@)];
    lemma_joined_text_concat(open + part.data, close);
    lemma_joined_text_concat(open, part.data);
    lemma_joined_text_single("<response>\n"@);
    lemma_joined_text_single("</response>\n"@);
}

/// Each turn that goes back to the model counts, and none is taken once
/// the limit is reached: from a state that has taken `t` turns, at most
/// `MAX_TURNS - t` more replies are asked for before the dialogue ends.
pub proof fn lemma_turns_are_bounded(
    state: HandlerStateView,
    response: ContextPartView,
    parsed: Option<Seq<MarkupView>>,
    answers: Seq<ToolAnswerView>,
)
    requires
        state.turn <= MAX_TURNS,
    ensures
        ({
            let (after, step) = stepped(state, response, parsed, answers);
            &&& after.turn <= MAX_TURNS
            &&& step is Issue ==> after.turn == state.turn + 1
            &&& !(step is Issue) ==> after.turn == state.turn
            &&& state.turn == MAX_TURNS ==> step is Emit
        }),
{
}

/// A reply without a call ends the dialogue at once: the answer is the
/// whole dialogue, and its last fragment is that reply, holds no call, and
/// holds the opening and the closing mark of a response.
pub proof fn lemma_reply_without_call_is_final(
    state: HandlerStateView,
    response: ContextPartView,
    parsed: Option<Seq<MarkupView>>,
    answers: Seq<ToolAnswerView>,
)
    requires
        state.tools is Some,
        !contains(response.text(), "<call>"@),
    ensures
        ({
            let (after, step) = stepped(state, response, parsed, answers);
            &&& step == DialogueStepView::Emit(EndpointResponseView::MultiTurnBlock(after.context))
            &&& after.context.len() == state.context.len() + 1
            &&& !contains(after.context.last().text(), "<call>"@)
            &&& contains(after.context.last().text(), "<response>"@)
            &&& contains(after.context.last().text(), "</response>"@)
        }),
{
    let text = response.text();
    if looks_like_nonstandard_final(text) {
        lemma_wrapped_text(response);
        lemma_wrapping_adds_no_call(text);
        reveal_strlit("<response>\n");
        reveal_strlit("</response>\n");
        reveal_strlit("<response>");
        reveal_strlit("</response>");
        let whole = "<response>\n"@ + text + "</response>\n"@;
        assert(whole.subrange(0, 10) =~= "<response>"@);
        assert(matches_at(whole, "<response>"@, 0));
        let at = (11 + text.len()) as int;
        assert(whole.subrange(at, at + 11) =~= "</response>"@);
        assert(matches_at(whole, "</response>"@, at));
    }
}

/// Whether what the tools of the handler keep is in order.
pub open spec fn tools_ok(state: HandlerStateView) -> bool {
    match state.tools {
        Some(tools) => tools.wf(),
        None => true,
    }
}

/// Whatever the model replies, what the tools keep stays in order.
pub proof fn lemma_step_keeps_tools_ok(
    state: HandlerStateView,
    response: ContextPartView,
    parsed: Option<Seq<MarkupView>>,
    answers: Seq<ToolAnswerView>,
)
    requires
        tools_ok(state),
    ensures
        tools_ok(stepped(state, response, parsed, answers).0),
{
    if state.tools is Some && parsed is Some {
        crate::ai_interaction::dispatch::lemma_dispatch_keeps_tools_ok(
            parsed->0,
            state.tools->0,
            answers,
            0,
            0,
            Seq::empty(),
        );
    }
}

/// One reply of the model with what belongs to it: the markup that it
/// parses to, where it does, and what the work outside gave for its calls.
pub struct ReplyTaken {
    pub response: ContextPartView,
    pub parsed: Option<Seq<MarkupView>>,
    pub answers: Seq<ToolAnswerView>,
}

/// What comes of a dialogue.
pub struct DialogueRun {
    /// The state of the handler at the end.
    pub state: HandlerStateView,
    /// The answer to the caller, where the dialogue has ended.
    pub answer: Option<EndpointResponseView>,
    /// How many replies of the model were taken.
    pub taken: nat,
}

/// What comes of the replies `replies`, taken from `state` one after the
/// other: each reply that goes back to the model is followed by the next,
/// and the reply that ends the dialogue is the last one taken. A reply
/// whose calls still need work outside is not taken, and stops the run.
pub open spec fn dialogue_run(state: HandlerStateView, replies: Seq<ReplyTaken>) -> DialogueRun
    decreases replies.len(),
{
    if replies.len() == 0 {
        DialogueRun { state, answer: None, taken: 0 }
    } else {
        let (after, step) = stepped(
            state,
            replies[0].response,
            replies[0].parsed,
            replies[0].answers,
        );
        match step {
            DialogueStepView::Needs(_) => DialogueRun { state, answer: None, taken: 0 },
            DialogueStepView::Emit(answer) => DialogueRun {
                state: after,
                answer: Some(answer),
                taken: 1,
            },
            DialogueStepView::Issue { .. } => {
                let rest = dialogue_run(after, replies.drop_first());
                DialogueRun { taken: rest.taken + 1, ..rest }
            },
        }
    }
}

/// Whatever the model replies, a dialogue takes at most one reply more
/// than turns are left.
pub proof fn lemma_dialogue_ends_within_limit(state: HandlerStateView, replies: Seq<ReplyTaken>)
    requires
        state.turn <= MAX_TURNS,
    ensures
        dialogue_run(state, replies).taken <= MAX_TURNS - state.turn + 1,
    decreases replies.len(),
{
    if replies.len() > 0 {
        let (after, step) = stepped(
            state,
            replies[0].response,
            replies[0].parsed,
            replies[0].answers,
        );
        lemma_turns_are_bounded(state, replies[0].response, replies[0].parsed, replies[0].answers);
        if step is Issue {
            lemma_dialogue_ends_within_limit(after, replies.drop_first());
        }
    }
}

/// A dialogue with tools does not go past a reply without a call: it takes
/// no reply after that one, and where it takes that one, the reply ends
/// it; the answer is then the whole dialogue, whose last fragment holds no
/// call, and holds the opening and the closing mark of a response.
pub proof fn lemma_dialogue_ends_on_reply_without_call(
    state: HandlerStateView,
    replies: Seq<ReplyTaken>,
    k: int,
)
    requires
        state.tools is Some,
        0 <= k < replies.len(),
        !contains(replies[k].response.text(), "<call>"@),
    ensures
        ({
            let run = dialogue_run(state, replies);
            &&& run.taken <= k + 1
            &&& run.taken == k + 1 ==> {
                &&& run.answer == Some(EndpointResponseView::MultiTurnBlock(run.state.context))
                &&& run.state.context.len() > 0
                &&& !contains(run.state.context.last().text(), "<call>"@)
                &&& contains(run.state.context.last().text(), "<response>"@)
                &&& contains(run.state.context.last().text(), "</response>"@)
            }
        }),
    decreases replies.len(),
{
    let (after, step) = stepped(state, replies[0].response, replies[0].parsed, replies[0].answers);
    if k == 0 {
        lemma_reply_without_call_is_final(
            state,
            replies[0].response,
            replies[0].parsed,
            replies[0].answers,
        );
    } else if step is Issue {
        assert(replies.drop_first()[k - 1] == replies[k]);
        lemma_dialogue_ends_on_reply_without_call(after, replies.drop_first(), k - 1);
    }
}

/// The final fragment of a dialogue that ended on a reply without a call
/// holds the opening and the closing mark of a response.
pub proof fn lemma_final_part_is_a_response(
    state: HandlerStateView,
    response: ContextPartView,
    parsed: Option<Seq<MarkupView>>,
    answers: Seq<ToolAnswerView>,
)
    requires
        state.tools is Some,
        !contains(response.text(), "<call>"@),
    ensures
        stepped(state, response, parsed, answers).1 matches DialogueStepView::Emit(
            EndpointResponseView::MultiTurnBlock(context),
        ) && context.len() > 0 && contains(context.last().text(), "<response>"@) && contains(
            context.last().text(),
            "</response>"@,
        ),
{
    lemma_reply_without_call_is_final(state, response, parsed, answers);
}

} // verus!
